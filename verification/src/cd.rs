use vstd::prelude::*;
use crate::text::{views, chars_of, string_from_chars};

verus! {

/// What `cd` asks to be done.
pub enum CdAction {
    /// No directory was given: nothing happens.
    Nothing,
    /// Print this line and stay where we are.
    Print(String),
    /// Go to this absolute path if it exists; otherwise report it with
    /// `no_such_directory`.
    Absolute(String),
    /// Go to the home directory, and from there on to the given relative
    /// path, when there is one (`~/sub`).
    Home(Option<String>),
    /// Go to the parent of the current directory, and from there on to
    /// the given relative path, when there is one.
    Parent(Option<String>),
    /// Go on from the current directory to this relative path.
    Current(String),
}

/// The part of a path before its first `/`, and what follows that `/`
/// when there is one.
pub open spec fn split_first_slash(s: Seq<char>) -> (Seq<char>, Option<Seq<char>>)
    decreases s.len(),
{
    if s.len() == 0 {
        (Seq::empty(), None)
    } else if s[0] == '/' {
        (Seq::empty(), Some(s.drop_first()))
    } else {
        let (head, tail) = split_first_slash(s.drop_first());
        (seq![s[0]] + head, tail)
    }
}

/// Cutting a path at its first `/`: the part before it holds no `/`, and
/// the two parts, with the `/` between them when there is one, make up
/// the path.
pub proof fn lemma_split_first_slash(s: Seq<char>)
    ensures
        !split_first_slash(s).0.contains('/'),
        split_first_slash(s).1 is None ==> split_first_slash(s).0 == s,
        split_first_slash(s).1 matches Some(t) ==> split_first_slash(s).0 + seq!['/'] + t == s,
    decreases s.len(),
{
    if s.len() > 0 && s[0] != '/' {
        let rest = s.drop_first();
        lemma_split_first_slash(rest);
        let (h, t) = split_first_slash(rest);
        assert(!(seq![s[0]] + h).contains('/')) by {
            if (seq![s[0]] + h).contains('/') {
                let k = choose|k: int| 0 <= k < (seq![s[0]] + h).len() && (seq![s[0]] + h)[k] == '/';
                if k > 0 {
                    assert(h[k - 1] == '/');
                }
            }
        }
        match t {
            Some(tt) => {
                assert(seq![s[0]] + h + seq!['/'] + tt =~= seq![s[0]] + (h + seq!['/'] + tt));
                assert(seq![s[0]] + rest =~= s);
            },
            None => {
                assert(seq![s[0]] + rest =~= s);
            },
        }
    } else if s.len() > 0 {
        assert(Seq::<char>::empty() + seq!['/'] + s.drop_first() =~= s);
        assert(!Seq::<char>::empty().contains('/'));
    } else {
        assert(!Seq::<char>::empty().contains('/'));
    }
}

/// The notice for a directory that does not exist.
pub open spec fn spec_no_such_directory(path: Seq<char>) -> Seq<char> {
    "cd: "@ + path + ": No such file or directory"@
}

/// The notice for a directory that does not exist.
pub fn no_such_directory(path: &str) -> (res: String)
    ensures
        res@ == spec_no_such_directory(path@),
{
    let mut msg = String::from_str("cd: ");
    msg.append(path);
    msg.append(": No such file or directory");
    msg
}

/// The action `cd` takes for its words `parts` (the first being `cd`).
pub open spec fn cd_plan(a: CdAction, parts: Seq<Seq<char>>) -> bool {
    if parts.len() < 2 {
        a is Nothing
    } else if parts.len() > 2 {
        a matches CdAction::Print(l) && l@ == "too many arguments"@
    } else if parts[1].len() > 0 && parts[1][0] == '/' {
        a matches CdAction::Absolute(p) && p@ == parts[1]
    } else {
        let (head, tail) = split_first_slash(parts[1]);
        if head == seq!['~'] {
            match tail {
                Some(t) => a matches CdAction::Home(Some(p)) && p@ == t,
                None => a matches CdAction::Home(None),
            }
        } else if head == seq!['.', '.'] {
            match tail {
                Some(t) => a matches CdAction::Parent(Some(p)) && p@ == t,
                None => a matches CdAction::Parent(None),
            }
        } else if head == seq!['.'] {
            match tail {
                Some(t) => a matches CdAction::Current(p) && p@ == t,
                None => a is Nothing,
            }
        } else if head.len() == 0 {
            match tail {
                Some(_) => a matches CdAction::Print(l) && l@ == spec_no_such_directory(parts[1]),
                None => a is Nothing,
            }
        } else {
            a matches CdAction::Print(l) && l@ == spec_no_such_directory(parts[1])
        }
    }
}

fn split_at_first_slash(s: &Vec<char>) -> (res: (Vec<char>, Option<Vec<char>>))
    ensures
        res.0@ == split_first_slash(s@).0,
        match res.1 {
            Some(t) => split_first_slash(s@).1 == Some(t@),
            None => split_first_slash(s@).1 is None,
        },
{
    let mut head: Vec<char> = Vec::new();
    let mut i: usize = 0;
    assert(s@.skip(0) == s@);
    while i < s.len()
        invariant
            i <= s@.len(),
            split_first_slash(s@) == (head@ + split_first_slash(s@.skip(i as int)).0, split_first_slash(s@.skip(i as int)).1),
        decreases s.len() - i,
    {
        assert(s@.skip(i as int)[0] == s@[i as int]);
        assert(s@.skip(i as int).drop_first() == s@.skip(i + 1));
        if s[i] == '/' {
            let mut tail: Vec<char> = Vec::new();
            let mut k: usize = i + 1;
            while k < s.len()
                invariant
                    i + 1 <= k <= s@.len(),
                    tail@ == s@.subrange(i + 1, k as int),
                decreases s.len() - k,
            {
                tail.push(s[k]);
                k = k + 1;
            }
            assert(tail@ =~= s@.skip(i + 1));
            assert(head@ + Seq::<char>::empty() == head@);
            return (head, Some(tail));
        }
        let ghost before = head@;
        head.push(s[i]);
        assert(head@ + split_first_slash(s@.skip(i + 1)).0 =~= before + (seq![s@[i as int]] + split_first_slash(s@.skip(i + 1)).0));
        i = i + 1;
    }
    assert(head@ + Seq::<char>::empty() == head@);
    (head, None)
}

/// The `cd` builtin: absolute paths, and `~` (the home directory), `..`
/// and `.`, each followed by an optional relative path, are understood;
/// anything else does not exist.
pub fn cd_functionality(parts: &Vec<String>) -> (res: CdAction)
    ensures
        cd_plan(res, views(parts@)),
{
    let ghost p = views(parts@);
    if parts.len() < 2 {
        return CdAction::Nothing;
    }
    if parts.len() > 2 {
        return CdAction::Print(String::from_str("too many arguments"));
    }
    let arg = chars_of(parts[1].as_str());
    assert(p[1] == arg@);
    if arg.len() > 0 && arg[0] == '/' {
        return CdAction::Absolute(parts[1].clone());
    }
    let (head, tail) = split_at_first_slash(&arg);
    let head_str = string_from_chars(&head);
    let h = head_str.as_str();
    proof {
        reveal_strlit("~");
        reveal_strlit("..");
        reveal_strlit(".");
        assert("~"@ =~= seq!['~']);
        assert(".."@ =~= seq!['.', '.']);
        assert("."@ =~= seq!['.']);
    }
    if crate::text::str_is(h, "~") {
        match tail {
            Some(t) => CdAction::Home(Some(string_from_chars(&t))),
            None => CdAction::Home(None),
        }
    } else if crate::text::str_is(h, "..") {
        match tail {
            Some(t) => CdAction::Parent(Some(string_from_chars(&t))),
            None => CdAction::Parent(None),
        }
    } else if crate::text::str_is(h, ".") {
        match tail {
            Some(t) => CdAction::Current(string_from_chars(&t)),
            None => CdAction::Nothing,
        }
    } else if head.len() == 0 {
        match tail {
            Some(_) => CdAction::Print(no_such_directory(parts[1].as_str())),
            None => CdAction::Nothing,
        }
    } else {
        CdAction::Print(no_such_directory(parts[1].as_str()))
    }
}

} // verus!

verus! {

/// What follows a move to `path`: nothing to print when the directory
/// can be reached (it is there, and for an absolute path it is absolute),
/// otherwise the notice that it does not exist.
pub fn cd_outcome(path: &str, reachable: bool) -> (res: Option<String>)
    ensures
        reachable ==> res is None,
        !reachable ==> (res matches Some(m) && m@ == spec_no_such_directory(path@)),
{
    if reachable {
        None
    } else {
        Some(no_such_directory(path))
    }
}

} // verus!
