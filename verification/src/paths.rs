use vstd::prelude::*;
use crate::text::{chars_of, views};

verus! {

/// The operating system the shell runs on, which decides what counts as
/// an executable.
#[derive(PartialEq, Eq, Structural, Clone, Copy, Debug)]
pub enum Platform {
    Unix,
    Windows,
}

/// The file extensions of executables: on Windows `exe`, `bat`, `cmd`
/// and `com`; on Unix only the empty extension, which every name has.
pub open spec fn spec_exe_extensions(p: Platform) -> Seq<Seq<char>> {
    match p {
        Platform::Unix => seq![Seq::empty()],
        Platform::Windows => seq![seq!['e', 'x', 'e'], seq!['b', 'a', 't'], seq!['c', 'm', 'd'], seq!['c', 'o', 'm']],
    }
}

/// The file extensions of executables on a platform.
pub fn exe_extensions(p: Platform) -> (res: Vec<String>)
    ensures
        views(res@) == spec_exe_extensions(p),
{
    let mut res: Vec<String> = Vec::new();
    match p {
        Platform::Unix => {
            res.push(String::new());
        },
        Platform::Windows => {
            proof {
                reveal_strlit("exe");
                reveal_strlit("bat");
                reveal_strlit("cmd");
                reveal_strlit("com");
                assert("exe"@ =~= seq!['e', 'x', 'e']);
                assert("bat"@ =~= seq!['b', 'a', 't']);
                assert("cmd"@ =~= seq!['c', 'm', 'd']);
                assert("com"@ =~= seq!['c', 'o', 'm']);
            }
            res.push(String::from_str("exe"));
            res.push(String::from_str("bat"));
            res.push(String::from_str("cmd"));
            res.push(String::from_str("com"));
        },
    }
    assert(views(res@) =~= spec_exe_extensions(p));
    res
}

/// `s` ends with `suffix`.
pub open spec fn is_suffix(suffix: Seq<char>, s: Seq<char>) -> bool {
    suffix.len() <= s.len() && s.subrange(s.len() - suffix.len(), s.len() as int) == suffix
}

/// A file name ends with one of the platform's executable extensions.
pub open spec fn has_exe_suffix(p: Platform, name: Seq<char>) -> bool {
    exists|i: int| 0 <= i < spec_exe_extensions(p).len() && is_suffix(#[trigger] spec_exe_extensions(p)[i], name)
}

fn ends_with(s: &Vec<char>, suffix: &Vec<char>) -> (res: bool)
    ensures
        res == is_suffix(suffix@, s@),
{
    if suffix.len() > s.len() {
        return false;
    }
    let off = s.len() - suffix.len();
    let mut i: usize = 0;
    while i < suffix.len()
        invariant
            suffix@.len() <= s@.len(),
            s@.len() == s.len(),
            off == s@.len() - suffix@.len(),
            i <= suffix@.len(),
            forall|k: int| 0 <= k < i ==> s@[off + k] == suffix@[k],
        decreases suffix.len() - i,
    {
        if s[off + i] != suffix[i] {
            assert(s@.subrange(off as int, s@.len() as int)[i as int] != suffix@[i as int]);
            return false;
        }
        i = i + 1;
    }
    assert(s@.subrange(off as int, s@.len() as int) =~= suffix@);
    true
}

/// Whether a file name ends with one of the platform's executable
/// extensions.
pub fn has_executable_suffix(p: Platform, name: &str) -> (res: bool)
    ensures
        res == has_exe_suffix(p, name@),
{
    let exts = exe_extensions(p);
    let n = chars_of(name);
    let mut i: usize = 0;
    while i < exts.len()
        invariant
            i <= exts@.len(),
            views(exts@) == spec_exe_extensions(p),
            n@ == name@,
            forall|k: int| 0 <= k < i ==> !is_suffix(#[trigger] spec_exe_extensions(p)[k], name@),
        decreases exts.len() - i,
    {
        assert(views(exts@)[i as int] == exts@[i as int]@);
        if ends_with(&n, &chars_of(exts[i].as_str())) {
            return true;
        }
        i = i + 1;
    }
    false
}

/// A mode grants execute permission to its owner, its group or others.
pub open spec fn has_execute_bit(mode: Option<u32>) -> bool {
    match mode {
        Some(m) => m & 0o111u32 != 0,
        None => false,
    }
}

/// The path with some nonempty executable extension of the platform
/// added names a file: `ext_is_file[i]` says whether it does for the
/// `i`-th extension.
pub open spec fn extension_stands_in(p: Platform, ext_is_file: Seq<bool>) -> bool {
    exists|i: int|
        0 <= i < spec_exe_extensions(p).len() && i < ext_is_file.len() && #[trigger] spec_exe_extensions(p)[i].len() > 0
            && ext_is_file[i]
}

/// Whether a path names an executable. A regular file is one on Windows,
/// and on Unix when its permission bits (`mode`, when its metadata could
/// be read) let someone execute it. Failing that, the path counts when
/// adding one of the platform's nonempty executable extensions names a
/// file (`ext_is_file`, one answer per extension of `exe_extensions`).
pub fn is_executable_path(p: Platform, is_file: bool, mode: Option<u32>, ext_is_file: &Vec<bool>) -> (res: bool)
    ensures
        res == ((is_file && (p == Platform::Windows || has_execute_bit(mode))) || extension_stands_in(p, ext_is_file@)),
{
    if is_file {
        if p == Platform::Windows {
            return true;
        }
        match mode {
            Some(m) => {
                if m & 0o111u32 != 0 {
                    return true;
                }
            },
            None => {},
        }
    }
    let exts = exe_extensions(p);
    let mut i: usize = 0;
    while i < exts.len() && i < ext_is_file.len()
        invariant
            i <= exts@.len(),
            views(exts@) == spec_exe_extensions(p),
            forall|k: int| 0 <= k < i && k < ext_is_file@.len() ==> !(#[trigger] spec_exe_extensions(p)[k].len() > 0 && ext_is_file@[k]),
        decreases exts.len() - i,
    {
        assert(views(exts@)[i as int] == exts@[i as int]@);
        if exts[i].as_str().unicode_len() > 0 && ext_is_file[i] {
            return true;
        }
        i = i + 1;
    }
    false
}

} // verus!

verus! {

/// The first candidate on the search path that is an executable.
pub fn first_executable(candidates: &Vec<bool>) -> (res: Option<usize>)
    ensures
        res matches Some(i) ==> i < candidates@.len() && candidates@[i as int] && forall|k: int| 0 <= k < i ==> !candidates@[k],
        res is None ==> forall|k: int| 0 <= k < candidates@.len() ==> !candidates@[k],
{
    let mut i: usize = 0;
    while i < candidates.len()
        invariant
            i <= candidates@.len(),
            forall|k: int| 0 <= k < i ==> !candidates@[k],
        decreases candidates.len() - i,
    {
        if candidates[i] {
            return Some(i);
        }
        i = i + 1;
    }
    None
}

/// The notice for a command that is neither a builtin nor found on the
/// search path.
pub fn command_not_found(name: &str) -> (res: String)
    ensures
        res@ == name@ + ": command not found"@,
{
    let mut msg = String::from_str(name);
    msg.append(": command not found");
    msg
}

/// On Unix no added extension stands in for a path, so only a regular
/// file with an execute bit counts as an executable.
pub proof fn lemma_unix_has_no_stand_in(ext_is_file: Seq<bool>)
    ensures
        !extension_stands_in(Platform::Unix, ext_is_file),
{
    assert forall|i: int| 0 <= i < spec_exe_extensions(Platform::Unix).len() && i < ext_is_file.len()
        implies !(#[trigger] spec_exe_extensions(Platform::Unix)[i].len() > 0 && ext_is_file[i]) by {
        assert(spec_exe_extensions(Platform::Unix)[i] == Seq::<char>::empty());
    }
}

} // verus!
