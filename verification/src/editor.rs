use vstd::prelude::*;
use std::collections::VecDeque;
use crate::text::{views, chars_of, string_from_chars, join, spec_join};
use crate::builtins::{all_strings, all_builtin_names, all_builtins, builtin_name, spec_get_command, lemma_builtin_names_are_commands, ShellBuiltins};
use crate::completion::{is_prefix, starts_with, names_with_prefix, spec_lcp_all, lcp_of_all, lemma_names_with_prefix_members, lemma_names_with_prefix_complete, lemma_lcp_all_is_common, is_common_prefix};

verus! {

broadcast use vstd::std_specs::vecdeque::group_vec_dequeue_axioms;

/// A key pressed while a command line is being typed.
#[derive(PartialEq, Eq, Structural, Clone, Copy, Debug)]
pub enum Key {
    Enter,
    Left,
    Right,
    Backspace,
    /// A character typed without the control key.
    Char(char),
    /// A character typed with the control key held.
    Control(char),
    Up,
    Down,
    Tab,
    /// Any other key, or a key being released.
    Other,
}

/// What the terminal should do after a key.
#[derive(PartialEq, Eq, Structural, Clone, Copy, Debug)]
pub enum EditorAction {
    /// Draw the prompt and the line again and wait for the next key.
    Redraw,
    /// The line is complete.
    Submit,
    /// The line was abandoned (Ctrl+C); it is now empty.
    Cancel,
    /// Leave the shell (Ctrl+D).
    Exit,
    /// Look the line up among the executables on the search path and hand
    /// the matches back.
    LookupPath,
    /// Read the entries of `completion_directory` and hand back those that
    /// complete `completion_partial` (see `files::file_matches`).
    LookupFiles,
    /// Ring the bell.
    Bell,
    /// Print the matches on a line of their own, then redraw.
    ShowMatches,
}

/// The editor's state: the line, the cursor's position in it, the number
/// of Tab presses counted, and the position in the history (the history's
/// length standing for the line being typed).
pub type EditorState = (Seq<char>, nat, nat, nat);

/// A command line being typed.
pub struct LineEditor {
    input: Vec<char>,
    cursor: usize,
    tab_count: u32,
    history_index: usize,
}

impl View for LineEditor {
    type V = EditorState;

    closed spec fn view(&self) -> EditorState {
        (self.input@, self.cursor as nat, self.tab_count as nat, self.history_index as nat)
    }
}

/// The cursor stands within the line and the history position within the
/// history.
pub open spec fn editor_wf(v: EditorState, h: Seq<Seq<char>>) -> bool {
    v.1 <= v.0.len() && v.3 <= h.len()
}

/// One more Tab press, the count staying at its largest value.
pub open spec fn count_tab(t: nat) -> nat {
    if t >= u32::MAX {
        t
    } else {
        t + 1
    }
}

/// The line shown at history position `i`: an entry, or the empty line
/// past the newest one.
pub open spec fn history_entry(h: Seq<Seq<char>>, i: nat) -> Seq<char> {
    if i < h.len() {
        h[i as int]
    } else {
        Seq::empty()
    }
}

/// `s` cut after its last `sep`: what runs up to and including it (empty
/// when there is none), and what follows it.
pub open spec fn split_after_last(s: Seq<char>, sep: char) -> (Seq<char>, Seq<char>)
    decreases s.len(),
{
    if s.len() == 0 {
        (Seq::empty(), Seq::empty())
    } else if s.last() == sep {
        (s, Seq::empty())
    } else {
        let (head, tail) = split_after_last(s.drop_last(), sep);
        (head, tail.push(s.last()))
    }
}

/// A line with a space in it completes a file name: the word after the
/// last space.
pub open spec fn completes_files(input: Seq<char>) -> bool {
    input.contains(' ')
}

/// What Tab completes: the part of the line kept as it is, and the
/// partial name after it. A command (no space yet) is completed whole; a
/// file name is the part of the last word after its last `/`.
pub open spec fn completion_target(input: Seq<char>) -> (Seq<char>, Seq<char>) {
    if completes_files(input) {
        let (head, word) = split_after_last(input, ' ');
        let (dir, name) = split_after_last(word, '/');
        (head + dir, name)
    } else {
        (Seq::empty(), input)
    }
}

/// The directory whose entries complete a file name: the last word's
/// directory part, or the current directory when it has none.
pub open spec fn completion_dir(input: Seq<char>) -> Seq<char> {
    let (dir, _name) = split_after_last(split_after_last(input, ' ').1, '/');
    if dir.len() == 0 {
        seq!['.']
    } else {
        dir
    }
}

/// A single completion ends the word with a space, except a directory
/// (ending in `/`), which may go on.
pub open spec fn finish_word(m: Seq<char>) -> Seq<char> {
    if m.len() > 0 && m.last() == '/' {
        m
    } else {
        m.push(' ')
    }
}

/// The builtins whose names start with a partial command.
pub open spec fn builtin_matches_of(input: Seq<char>) -> Seq<Seq<char>> {
    names_with_prefix(input, all_builtin_names())
}

/// The effect of one key on the editor. Tab on a command completes it
/// from the builtins (a single builtin keeping the Tab count), and asks
/// for the search path's executables when no builtin matches; after a
/// space it asks for the entries of a directory.
pub open spec fn key_step(v: EditorState, key: Key, h: Seq<Seq<char>>) -> (EditorState, EditorAction) {
    let (input, cur, tabs, hi) = v;
    match key {
        Key::Enter => (v, EditorAction::Submit),
        Key::Left => (if cur > 0 { (input, (cur - 1) as nat, tabs, hi) } else { v }, EditorAction::Redraw),
        Key::Right => (if cur < input.len() { (input, cur + 1, tabs, hi) } else { v }, EditorAction::Redraw),
        Key::Backspace => (
            if cur > 0 { (input.remove(cur - 1), (cur - 1) as nat, tabs, hi) } else { v },
            EditorAction::Redraw,
        ),
        Key::Char(c) => ((input.insert(cur as int, c), cur + 1, tabs, hi), EditorAction::Redraw),
        Key::Control(c) => if c == 'c' {
            ((Seq::empty(), 0, tabs, hi), EditorAction::Cancel)
        } else if c == 'd' {
            (v, EditorAction::Exit)
        } else if c == 'j' || c == 'm' {
            (v, EditorAction::Submit)
        } else {
            (v, EditorAction::Redraw)
        },
        Key::Up => if hi > 0 {
            let line = h[hi - 1];
            ((line, line.len(), 0, (hi - 1) as nat), EditorAction::Redraw)
        } else {
            (v, EditorAction::Redraw)
        },
        Key::Down => if hi < h.len() {
            let line = history_entry(h, hi + 1);
            ((line, line.len(), 0, hi + 1), EditorAction::Redraw)
        } else {
            (v, EditorAction::Redraw)
        },
        Key::Tab => {
            let counted = (input, cur, count_tab(tabs), hi);
            if completes_files(input) {
                (counted, EditorAction::LookupFiles)
            } else if builtin_matches_of(input).len() == 0 {
                (counted, EditorAction::LookupPath)
            } else if builtin_matches_of(input).len() == 1 {
                let line = builtin_matches_of(input)[0].push(' ');
                ((line, line.len(), count_tab(tabs), hi), EditorAction::Redraw)
            } else {
                matches_step(counted, Some(builtin_matches_of(input)))
            }
        },
        Key::Other => (v, EditorAction::Redraw),
    }
}

/// The effect of the matches for the partial name Tab completes: a
/// single match completes it, several matches extend it to their longest
/// common prefix when that is longer, and a second Tab lists them;
/// otherwise the bell rings.
pub open spec fn matches_step(v: EditorState, matches: Option<Seq<Seq<char>>>) -> (EditorState, EditorAction) {
    let (input, cur, tabs, hi) = v;
    let (base, partial) = completion_target(input);
    match matches {
        None => (v, EditorAction::Bell),
        Some(m) => if m.len() == 1 {
            let line = base + finish_word(m[0]);
            ((line, line.len(), 0, hi), EditorAction::Redraw)
        } else if m.len() > 1 && spec_lcp_all(m).len() > partial.len() {
            let line = base + spec_lcp_all(m);
            ((line, line.len(), 0, hi), EditorAction::Redraw)
        } else if m.len() > 1 && tabs == 2 {
            ((input, cur, 0, hi), EditorAction::ShowMatches)
        } else {
            (v, EditorAction::Bell)
        },
    }
}

fn split_after_last_exec(s: &Vec<char>, sep: char) -> (res: (Vec<char>, Vec<char>))
    ensures
        (res.0@, res.1@) == split_after_last(s@, sep),
{
    let mut k: usize = s.len();
    assert(s@.subrange(0, k as int) == s@);
    assert(split_after_last(s@, sep).1 + s@.subrange(k as int, s@.len() as int) =~= split_after_last(s@, sep).1);
    while k > 0 && s[k - 1] != sep
        invariant
            k <= s@.len(),
            split_after_last(s@, sep) == (split_after_last(s@.subrange(0, k as int), sep).0,
                split_after_last(s@.subrange(0, k as int), sep).1 + s@.subrange(k as int, s@.len() as int)),
        decreases k,
    {
        let ghost sub = s@.subrange(0, k as int);
        assert(sub.drop_last() == s@.subrange(0, k - 1));
        assert(sub.last() == s@[k - 1]);
        assert(split_after_last(sub, sep).1 == split_after_last(s@.subrange(0, k - 1), sep).1.push(s@[k - 1]));
        assert(split_after_last(s@.subrange(0, k - 1), sep).1.push(s@[k - 1]) + s@.subrange(k as int, s@.len() as int)
            =~= split_after_last(s@.subrange(0, k - 1), sep).1 + s@.subrange(k - 1, s@.len() as int));
        k = k - 1;
    }
    let mut head: Vec<char> = Vec::new();
    let mut tail: Vec<char> = Vec::new();
    let mut i: usize = 0;
    while i < k
        invariant
            i <= k <= s@.len(),
            head@ == s@.subrange(0, i as int),
        decreases k - i,
    {
        head.push(s[i]);
        assert(head@ =~= s@.subrange(0, i + 1));
        i = i + 1;
    }
    let mut j: usize = k;
    while j < s.len()
        invariant
            k <= j <= s@.len(),
            tail@ == s@.subrange(k as int, j as int),
        decreases s.len() - j,
    {
        tail.push(s[j]);
        assert(tail@ =~= s@.subrange(k as int, j + 1));
        j = j + 1;
    }
    let ghost sub = s@.subrange(0, k as int);
    if k > 0 {
        assert(sub.last() == sep);
        assert(split_after_last(sub, sep) == (sub, Seq::<char>::empty()));
    } else {
        assert(split_after_last(sub, sep) == (Seq::<char>::empty(), Seq::<char>::empty()));
    }
    assert(Seq::<char>::empty() + s@.subrange(k as int, s@.len() as int) =~= tail@);
    (head, tail)
}

fn contains_char(s: &Vec<char>, c: char) -> (res: bool)
    ensures
        res == s@.contains(c),
{
    let mut i: usize = 0;
    while i < s.len()
        invariant
            i <= s@.len(),
            forall|k: int| 0 <= k < i ==> s@[k] != c,
        decreases s.len() - i,
    {
        if s[i] == c {
            return true;
        }
        i = i + 1;
    }
    false
}

fn target_of(input: &Vec<char>) -> (res: (Vec<char>, Vec<char>))
    ensures
        (res.0@, res.1@) == completion_target(input@),
{
    if contains_char(input, ' ') {
        let (head, word) = split_after_last_exec(input, ' ');
        let (dir, name) = split_after_last_exec(&word, '/');
        let mut base = head;
        let mut i: usize = 0;
        let ghost h = base@;
        while i < dir.len()
            invariant
                i <= dir@.len(),
                base@ == h + dir@.subrange(0, i as int),
            decreases dir.len() - i,
        {
            base.push(dir[i]);
            assert(base@ =~= h + dir@.subrange(0, i + 1));
            i = i + 1;
        }
        assert(dir@.subrange(0, dir@.len() as int) == dir@);
        (base, name)
    } else {
        (Vec::new(), input.clone())
    }
}

fn concat_chars(a: Vec<char>, b: &Vec<char>) -> (res: Vec<char>)
    ensures
        res@ == a@ + b@,
{
    let mut out = a;
    let ghost start = out@;
    let mut i: usize = 0;
    while i < b.len()
        invariant
            i <= b@.len(),
            out@ == start + b@.subrange(0, i as int),
        decreases b.len() - i,
    {
        out.push(b[i]);
        assert(out@ =~= start + b@.subrange(0, i + 1));
        i = i + 1;
    }
    assert(b@.subrange(0, b@.len() as int) == b@);
    out
}

/// The builtins whose names start with a partial command, in completion
/// order.
pub fn builtin_matches(input: &str) -> (res: Vec<String>)
    ensures
        views(res@) == builtin_matches_of(input@),
{
    let names = all_strings();
    let ghost all = all_builtin_names();
    let p = chars_of(input);
    let mut found: Vec<String> = Vec::new();
    let mut i: usize = 0;
    assert(views(found@) =~= names_with_prefix(input@, all.subrange(0, 0)));
    while i < names.len()
        invariant
            i <= names@.len(),
            names@.len() == all.len(),
            all == all_builtin_names(),
            p@ == input@,
            forall|k: int| 0 <= k < names@.len() ==> #[trigger] names@[k]@ == all[k],
            views(found@) == names_with_prefix(input@, all.subrange(0, i as int)),
        decreases names.len() - i,
    {
        let ghost sub = all.subrange(0, i + 1);
        assert(sub.drop_last() == all.subrange(0, i as int));
        assert(sub.last() == all[i as int]);
        if starts_with(&names[i], &p) {
            let ghost before = views(found@);
            found.push(string_from_chars(&names[i]));
            assert(views(found@) =~= before.push(all[i as int]));
        }
        i = i + 1;
    }
    assert(all.subrange(0, all.len() as int) == all);
    found
}

impl LineEditor {
    /// A fresh, empty line, positioned past the newest history entry.
    pub fn new(history: &VecDeque<String>) -> (res: LineEditor)
        ensures
            res@ == (Seq::<char>::empty(), 0nat, 0nat, history@.len()),
            editor_wf(res@, views(history@)),
    {
        LineEditor { input: Vec::new(), cursor: 0, tab_count: 0, history_index: history.len() }
    }

    /// The line typed so far.
    pub fn line(&self) -> (res: String)
        ensures
            res@ == self@.0,
    {
        string_from_chars(&self.input)
    }

    /// Where the cursor stands in the line.
    pub fn cursor(&self) -> (res: usize)
        ensures
            res == self@.1,
    {
        self.cursor
    }

    /// The partial name that Tab completes.
    pub fn completion_partial(&self) -> (res: String)
        ensures
            res@ == completion_target(self@.0).1,
    {
        let (_base, partial) = target_of(&self.input);
        string_from_chars(&partial)
    }

    /// The directory whose entries complete a file name.
    pub fn completion_directory(&self) -> (res: String)
        ensures
            res@ == completion_dir(self@.0),
    {
        let (_head, word) = split_after_last_exec(&self.input, ' ');
        let (dir, _name) = split_after_last_exec(&word, '/');
        if dir.len() == 0 {
            proof {
                reveal_strlit(".");
                assert("."@ =~= seq!['.']);
            }
            String::from_str(".")
        } else {
            string_from_chars(&dir)
        }
    }

    fn load(&mut self, s: &String)
        ensures
            final(self)@ == (s@, s@.len(), 0nat, old(self)@.3),
    {
        self.input = chars_of(s.as_str());
        self.cursor = self.input.len();
        self.tab_count = 0;
    }

    /// Applies one key to the line and says what the terminal should do.
    pub fn handle_key(&mut self, key: Key, history: &VecDeque<String>) -> (res: EditorAction)
        requires
            editor_wf(old(self)@, views(history@)),
        ensures
            (final(self)@, res) == key_step(old(self)@, key, views(history@)),
            editor_wf(final(self)@, views(history@)),
    {
        match key {
            Key::Enter => EditorAction::Submit,
            Key::Left => {
                if self.cursor > 0 {
                    self.cursor = self.cursor - 1;
                }
                EditorAction::Redraw
            },
            Key::Right => {
                if self.cursor < self.input.len() {
                    self.cursor = self.cursor + 1;
                }
                EditorAction::Redraw
            },
            Key::Backspace => {
                if self.cursor > 0 {
                    self.input.remove(self.cursor - 1);
                    self.cursor = self.cursor - 1;
                }
                EditorAction::Redraw
            },
            Key::Char(c) => {
                self.input.insert(self.cursor, c);
                let n = self.input.len();
                assert(self.cursor < n);
                self.cursor = self.cursor + 1;
                EditorAction::Redraw
            },
            Key::Control(c) => {
                if c == 'c' {
                    self.input = Vec::new();
                    self.cursor = 0;
                    assert(self.input@ =~= Seq::<char>::empty());
                    EditorAction::Cancel
                } else if c == 'd' {
                    EditorAction::Exit
                } else if c == 'j' || c == 'm' {
                    EditorAction::Submit
                } else {
                    EditorAction::Redraw
                }
            },
            Key::Up => {
                if self.history_index > 0 {
                    self.history_index = self.history_index - 1;
                    self.load(&history[self.history_index]);
                }
                EditorAction::Redraw
            },
            Key::Down => {
                if self.history_index < history.len() {
                    self.history_index = self.history_index + 1;
                    if self.history_index == history.len() {
                        self.input = Vec::new();
                        self.cursor = 0;
                        self.tab_count = 0;
                        assert(self.input@ =~= Seq::<char>::empty());
                    } else {
                        self.load(&history[self.history_index]);
                    }
                }
                EditorAction::Redraw
            },
            Key::Tab => {
                self.tab_count = self.tab_count.saturating_add(1);
                if contains_char(&self.input, ' ') {
                    EditorAction::LookupFiles
                } else {
                    let line = string_from_chars(&self.input);
                    let matches = builtin_matches(line.as_str());
                    if matches.len() == 0 {
                        EditorAction::LookupPath
                    } else if matches.len() == 1 {
                        let mut word = chars_of(matches[0].as_str());
                        word.push(' ');
                        self.input = word;
                        self.cursor = self.input.len();
                        EditorAction::Redraw
                    } else {
                        self.complete_with_matches(Some(matches))
                    }
                }
            },
            Key::Other => EditorAction::Redraw,
        }
    }

    /// Completes the partial name from its matches (builtins, executables
    /// on the search path, or directory entries).
    pub fn complete_with_matches(&mut self, matches: Option<Vec<String>>) -> (res: EditorAction)
        requires
            old(self)@.1 <= old(self)@.0.len(),
        ensures
            (final(self)@, res) == matches_step(
                old(self)@,
                match matches {
                    Some(m) => Some(views(m@)),
                    None => None,
                },
            ),
            final(self)@.3 == old(self)@.3,
            final(self)@.1 <= final(self)@.0.len(),
    {
        match matches {
            None => EditorAction::Bell,
            Some(m) => {
                let (base, partial) = target_of(&self.input);
                if m.len() == 1 {
                    let mut word = chars_of(m[0].as_str());
                    let n = word.len();
                    if !(n > 0 && word[n - 1] == '/') {
                        word.push(' ');
                    }
                    self.input = concat_chars(base, &word);
                    self.cursor = self.input.len();
                    self.tab_count = 0;
                    return EditorAction::Redraw;
                }
                if m.len() > 1 {
                    let common = lcp_of_all(&m);
                    if common.len() > partial.len() {
                        self.input = concat_chars(base, &common);
                        self.cursor = self.input.len();
                        self.tab_count = 0;
                        return EditorAction::Redraw;
                    }
                    if self.tab_count == 2 {
                        self.tab_count = 0;
                        return EditorAction::ShowMatches;
                    }
                }
                EditorAction::Bell
            },
        }
    }
}

/// The line that lists several completions: the names separated by two
/// spaces.
pub fn matches_line(matches: &Vec<String>) -> (res: String)
    ensures
        res@ == spec_join(views(matches@), "  "@),
{
    join(matches.as_slice(), "  ")
}

/// Typing a character and then deleting it with Backspace gives back
/// the line and the cursor as they were.
pub proof fn lemma_backspace_undoes_char(v: EditorState, c: char, h: Seq<Seq<char>>)
    requires
        editor_wf(v, h),
    ensures
        key_step(key_step(v, Key::Char(c), h).0, Key::Backspace, h) == (v, EditorAction::Redraw),
{
    let w = key_step(v, Key::Char(c), h).0;
    assert(w.0.remove(v.1 as int) =~= v.0);
}

/// Moving the cursor left and then right brings it back, unless it
/// stood at the start of the line.
pub proof fn lemma_right_undoes_left(v: EditorState, h: Seq<Seq<char>>)
    requires
        editor_wf(v, h),
        v.1 > 0,
    ensures
        key_step(key_step(v, Key::Left, h).0, Key::Right, h) == (v, EditorAction::Redraw),
{
}

/// Going up the history and back down returns to the same position,
/// showing that position's entry (or an empty line past the newest one)
/// with the cursor at its end.
pub proof fn lemma_down_undoes_up(v: EditorState, h: Seq<Seq<char>>)
    requires
        editor_wf(v, h),
        v.3 > 0,
    ensures
        ({
            let w = key_step(key_step(v, Key::Up, h).0, Key::Down, h).0;
            &&& w.3 == v.3
            &&& w.0 == history_entry(h, v.3)
            &&& w.1 == w.0.len()
        }),
{
}

/// Every key keeps the cursor within the line and the history position
/// within the history.
pub proof fn lemma_key_step_keeps_wf(v: EditorState, key: Key, h: Seq<Seq<char>>)
    requires
        editor_wf(v, h),
    ensures
        editor_wf(key_step(v, key, h).0, h),
{
}

/// Tab completes a command from the builtins only with names that start
/// with what was typed and that the shell runs itself.
pub proof fn lemma_tab_offers_builtins(input: Seq<char>)
    ensures
        forall|i: int| 0 <= i < builtin_matches_of(input).len() ==> is_prefix(input, #[trigger] builtin_matches_of(input)[i])
            && spec_get_command(builtin_matches_of(input)[i]) is Some,
{
    lemma_names_with_prefix_members(input, all_builtin_names());
    assert forall|i: int| 0 <= i < builtin_matches_of(input).len() implies is_prefix(input, #[trigger] builtin_matches_of(input)[i])
        && spec_get_command(builtin_matches_of(input)[i]) is Some by {
        let n = builtin_matches_of(input)[i];
        assert(all_builtin_names().contains(n));
        let k = choose|k: int| 0 <= k < all_builtin_names().len() && all_builtin_names()[k] == n;
        assert(n == builtin_name(all_builtins()[k]));
        lemma_builtin_names_are_commands(all_builtins()[k]);
    }
}

/// `keys` types the characters of `s`, one after another.
pub open spec fn types_text(keys: Seq<Key>, s: Seq<char>) -> bool {
    keys.len() == s.len() && forall|i: int| 0 <= i < s.len() ==> #[trigger] keys[i] == Key::Char(s[i])
}

/// The state after a sequence of keys, each applied in turn.
pub open spec fn run_keys(v: EditorState, keys: Seq<Key>, h: Seq<Seq<char>>) -> EditorState
    decreases keys.len(),
{
    if keys.len() == 0 {
        v
    } else {
        key_step(run_keys(v, keys.drop_last(), h), keys.last(), h).0
    }
}

/// Typing a text on a fresh line builds exactly that text, with the
/// cursor at its end, and Enter then hands the line over as it is.
pub proof fn lemma_typing_builds_line(keys: Seq<Key>, s: Seq<char>, tabs: nat, hi: nat, h: Seq<Seq<char>>)
    requires
        hi <= h.len(),
        types_text(keys, s),
    ensures
        run_keys((Seq::empty(), 0, tabs, hi), keys, h) == (s, s.len(), tabs, hi),
        key_step((s, s.len(), tabs, hi), Key::Enter, h) == ((s, s.len(), tabs, hi), EditorAction::Submit),
    decreases s.len(),
{
    if s.len() == 0 {
        assert(s =~= Seq::<char>::empty());
    } else {
        let init = s.drop_last();
        let kinit = keys.drop_last();
        assert forall|i: int| 0 <= i < init.len() implies #[trigger] kinit[i] == Key::Char(init[i]) by {
            assert(kinit[i] == keys[i]);
            assert(keys[i] == Key::Char(s[i]));
        }
        lemma_typing_builds_line(kinit, init, tabs, hi, h);
        assert(keys[keys.len() - 1] == Key::Char(s[s.len() - 1]));
        assert(init.insert(init.len() as int, s.last()) =~= s);
    }
}

/// Cutting after the last separator: the two parts make up the whole,
/// the second holds no separator, and the first is empty or ends with
/// one.
pub proof fn lemma_split_after_last(s: Seq<char>, sep: char)
    ensures
        split_after_last(s, sep).0 + split_after_last(s, sep).1 == s,
        !split_after_last(s, sep).1.contains(sep),
        split_after_last(s, sep).0.len() == 0 || split_after_last(s, sep).0.last() == sep,
    decreases s.len(),
{
    if s.len() == 0 {
        assert(Seq::<char>::empty() + Seq::<char>::empty() =~= s);
    } else if s.last() == sep {
        assert(s + Seq::<char>::empty() =~= s);
    } else {
        let init = s.drop_last();
        lemma_split_after_last(init, sep);
        let (h, t) = split_after_last(init, sep);
        assert(h + t == init);
        assert(h + t.push(s.last()) =~= (h + t).push(s.last()));
        assert(init.push(s.last()) =~= s);
        assert(!t.push(s.last()).contains(sep)) by {
            if t.push(s.last()).contains(sep) {
                let k = choose|k: int| 0 <= k < t.push(s.last()).len() && t.push(s.last())[k] == sep;
                if k < t.len() {
                    assert(t[k] == sep);
                }
            }
        }
    }
}

/// What Tab completes after a space is the file name after the last
/// space and the last `/`: the part kept and the partial name make up the
/// line, and the partial name holds neither a space nor a `/`.
pub proof fn lemma_completion_target_is_last_name(input: Seq<char>)
    requires
        completes_files(input),
    ensures
        completion_target(input).0 + completion_target(input).1 == input,
        !completion_target(input).1.contains(' '),
        !completion_target(input).1.contains('/'),
{
    let (head, word) = split_after_last(input, ' ');
    lemma_split_after_last(input, ' ');
    let (dir, name) = split_after_last(word, '/');
    lemma_split_after_last(word, '/');
    assert(head + dir + name =~= head + (dir + name));
    assert(!name.contains(' ')) by {
        if name.contains(' ') {
            let k = choose|k: int| 0 <= k < name.len() && name[k] == ' ';
            assert((dir + name)[dir.len() + k] == ' ');
            assert(word[dir.len() + k] == ' ');
        }
    }
}

/// Tab offers every builtin whose name starts with what was typed,
/// including a builtin typed in full.
pub proof fn lemma_tab_misses_no_builtin(input: Seq<char>, b: ShellBuiltins)
    requires
        is_prefix(input, builtin_name(b)),
    ensures
        builtin_matches_of(input).contains(builtin_name(b)),
{
    lemma_builtin_names_are_commands(b);
    let k = choose|k: int| 0 <= k < all_builtins().len() && all_builtins()[k] == b;
    assert(all_builtin_names()[k] == builtin_name(b));
    lemma_names_with_prefix_complete(input, all_builtin_names());
}

/// Up shows the history entry just before the current position.
pub proof fn lemma_up_shows_previous_entry(v: EditorState, h: Seq<Seq<char>>)
    requires
        0 < v.3 <= h.len(),
    ensures
        key_step(v, Key::Up, h).0.0 == h[v.3 - 1],
        key_step(v, Key::Up, h).0.3 == v.3 - 1,
        key_step(v, Key::Up, h).0.1 == h[v.3 - 1].len(),
{
}

/// Down shows the history entry just after the current position, or an
/// empty line past the newest one.
pub proof fn lemma_down_shows_next_entry(v: EditorState, h: Seq<Seq<char>>)
    requires
        v.3 < h.len(),
    ensures
        key_step(v, Key::Down, h).0.3 == v.3 + 1,
        v.3 + 1 < h.len() ==> key_step(v, Key::Down, h).0.0 == h[v.3 as int + 1],
        v.3 + 1 == h.len() ==> key_step(v, Key::Down, h).0.0.len() == 0,
{
}

/// Ctrl+C abandons the line (it is emptied, the cursor at its start);
/// Ctrl+D leaves the shell; Ctrl+J and Ctrl+M hand the line over as Enter
/// does. Ctrl+D, Ctrl+J and Ctrl+M leave the state as it is.
pub proof fn lemma_control_keys(v: EditorState, h: Seq<Seq<char>>)
    ensures
        key_step(v, Key::Control('c'), h) == ((Seq::<char>::empty(), 0nat, v.2, v.3), EditorAction::Cancel),
        key_step(v, Key::Control('d'), h) == (v, EditorAction::Exit),
        key_step(v, Key::Control('j'), h) == key_step(v, Key::Enter, h),
        key_step(v, Key::Control('m'), h) == key_step(v, Key::Enter, h),
        key_step(v, Key::Enter, h) == (v, EditorAction::Submit),
{
}

/// The cursor stops at the ends of the line: Left at its start and
/// Right at its end change nothing.
pub proof fn lemma_cursor_stops_at_ends(v: EditorState, h: Seq<Seq<char>>)
    ensures
        v.1 == 0 ==> key_step(v, Key::Left, h) == (v, EditorAction::Redraw),
        v.1 >= v.0.len() ==> key_step(v, Key::Right, h) == (v, EditorAction::Redraw),
{
}

proof fn lemma_prefix_extend(base: Seq<char>, a: Seq<char>, b: Seq<char>)
    requires
        is_prefix(a, b),
    ensures
        is_prefix(base + a, base + b),
{
    assert((base + b).subrange(0, (base + a).len() as int) =~= base + a);
}

proof fn lemma_prefix_chain(a: Seq<char>, b: Seq<char>, c: Seq<char>)
    requires
        is_prefix(a, b),
        is_prefix(b, c),
    ensures
        is_prefix(a, c),
{
    assert(c.subrange(0, a.len() as int) =~= b.subrange(0, a.len() as int));
}

/// Completing from matches that all start with the partial name never
/// loses what was typed: the line afterwards starts with the line before.
pub proof fn lemma_completion_keeps_typed_text(v: EditorState, m: Seq<Seq<char>>)
    requires
        m.len() >= 1,
        forall|i: int| 0 <= i < m.len() ==> is_prefix(completion_target(v.0).1, #[trigger] m[i]),
    ensures
        is_prefix(v.0, matches_step(v, Some(m)).0.0),
{
    let input = v.0;
    let (base, partial) = completion_target(input);
    if completes_files(input) {
        lemma_completion_target_is_last_name(input);
    } else {
        assert(Seq::<char>::empty() + input =~= input);
    }
    assert(base + partial == input);
    assert(input.subrange(0, input.len() as int) =~= input);
    if m.len() == 1 {
        let w = finish_word(m[0]);
        assert(is_prefix(m[0], w)) by {
            assert(w.subrange(0, m[0].len() as int) =~= m[0]);
        }
        assert(is_prefix(partial, m[0]));
        lemma_prefix_chain(partial, m[0], w);
        lemma_prefix_extend(base, partial, w);
    } else if spec_lcp_all(m).len() > partial.len() {
        lemma_lcp_all_is_common(m);
        assert(is_common_prefix(partial, m));
        lemma_prefix_extend(base, partial, spec_lcp_all(m));
    }
}

} // verus!
