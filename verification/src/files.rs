use vstd::prelude::*;
use crate::text::{views, chars_of};
use crate::completion::{names_with_prefix, sorted, sort_names, starts_with};

verus! {

broadcast use vstd::seq_lib::group_to_multiset_ensures;

/// An entry of a directory as read from the file system.
pub struct DirEntryInfo {
    pub name: String,
    pub is_dir: bool,
}

/// How an entry is shown and completed: its name, with a trailing `/`
/// for a directory.
pub open spec fn display_name(e: DirEntryInfo) -> Seq<char> {
    if e.is_dir {
        e.name@.push('/')
    } else {
        e.name@
    }
}

pub open spec fn display_names(entries: Seq<DirEntryInfo>) -> Seq<Seq<char>> {
    entries.map_values(|e: DirEntryInfo| display_name(e))
}

fn display(e: &DirEntryInfo) -> (res: String)
    ensures
        res@ == display_name(*e),
{
    let mut s = e.name.clone();
    if e.is_dir {
        s.append("/");
        proof {
            reveal_strlit("/");
            assert("/"@ =~= seq!['/']);
        }
        assert(s@ =~= e.name@.push('/'));
    }
    s
}

fn all_display_names(entries: &Vec<DirEntryInfo>) -> (res: Vec<String>)
    ensures
        views(res@) == display_names(entries@),
{
    let mut res: Vec<String> = Vec::new();
    let mut i: usize = 0;
    assert(views(res@) =~= display_names(entries@).subrange(0, 0));
    while i < entries.len()
        invariant
            i <= entries@.len(),
            views(res@) =~= display_names(entries@).subrange(0, i as int),
        decreases entries.len() - i,
    {
        let ghost before = views(res@);
        res.push(display(&entries[i]));
        assert(views(res@) =~= before.push(display_name(entries@[i as int])));
        i = i + 1;
    }
    res
}

/// The directory `ls` lists: the one it was given, or the current one.
pub fn ls_functionality(parts: &Vec<String>) -> (res: String)
    ensures
        parts@.len() >= 2 ==> res@ == parts@[1]@,
        parts@.len() < 2 ==> res@ == "."@,
{
    if parts.len() >= 2 {
        parts[1].clone()
    } else {
        String::from_str(".")
    }
}

/// The lines `ls` prints for a directory's entries: their names, sorted,
/// with a trailing `/` on directories.
pub fn ls_listing(entries: &Vec<DirEntryInfo>) -> (res: Vec<String>)
    ensures
        sorted(views(res@)),
        views(res@).to_multiset() == display_names(entries@).to_multiset(),
{
    sort_names(all_display_names(entries))
}

/// The notice for a directory `ls` could not read.
pub fn ls_error(path: &str) -> (res: String)
    ensures
        res@ == "ls: "@ + path@ + ": No such file or directory"@,
{
    let mut msg = String::from_str("ls: ");
    msg.append(path);
    msg.append(": No such file or directory");
    msg
}

/// The directories `mkdir` creates (each with its missing parents), or
/// the notice that none was given.
pub fn mkdir_functionality(parts: &Vec<String>) -> (res: Result<Vec<String>, String>)
    ensures
        parts@.len() < 2 ==> (res matches Err(m) && m@ == "mkdir: missing operand"@),
        parts@.len() >= 2 ==> (res matches Ok(dirs) && views(dirs@) == views(parts@).drop_first()),
{
    if parts.len() < 2 {
        return Err(String::from_str("mkdir: missing operand"));
    }
    let mut dirs: Vec<String> = Vec::new();
    let mut i: usize = 1;
    assert(views(dirs@) =~= views(parts@).subrange(1, 1));
    while i < parts.len()
        invariant
            1 <= i <= parts@.len(),
            views(dirs@) =~= views(parts@).subrange(1, i as int),
        decreases parts.len() - i,
    {
        let ghost before = views(dirs@);
        dirs.push(parts[i].clone());
        assert(views(dirs@) =~= before.push(parts@[i as int]@));
        i = i + 1;
    }
    assert(views(parts@).subrange(1, parts@.len() as int) =~= views(parts@).drop_first());
    Ok(dirs)
}

/// The notice for a directory `mkdir` could not create, with the error.
pub fn mkdir_error(dir: &str, error: &str) -> (res: String)
    ensures
        res@ == "mkdir: cannot create directory '"@ + dir@ + "': "@ + error@,
{
    let mut msg = String::from_str("mkdir: cannot create directory '");
    msg.append(dir);
    msg.append("': ");
    msg.append(error);
    msg
}

/// The completions of a partial file name among a directory's entries:
/// the entries (shown with a trailing `/` for directories) that start
/// with it, sorted; none when no entry does.
pub fn file_matches(partial: &str, entries: &Vec<DirEntryInfo>) -> (res: Option<Vec<String>>)
    ensures
        ({
            let m = names_with_prefix(partial@, display_names(entries@));
            &&& m.len() == 0 ==> res is None
            &&& m.len() > 0 ==> (res matches Some(r) && sorted(views(r@)) && views(r@).to_multiset()
                == m.to_multiset())
        }),
{
    let names = all_display_names(entries);
    let ghost all = views(names@);
    let p = chars_of(partial);
    let mut found: Vec<String> = Vec::new();
    let mut i: usize = 0;
    assert(views(found@) =~= names_with_prefix(partial@, all.subrange(0, 0)));
    while i < names.len()
        invariant
            i <= names@.len(),
            all == views(names@),
            p@ == partial@,
            views(found@) == names_with_prefix(partial@, all.subrange(0, i as int)),
        decreases names.len() - i,
    {
        let ghost sub = all.subrange(0, i + 1);
        assert(sub.drop_last() == all.subrange(0, i as int));
        assert(sub.last() == names@[i as int]@);
        if starts_with(&chars_of(names[i].as_str()), &p) {
            let ghost before = views(found@);
            found.push(names[i].clone());
            assert(views(found@) =~= before.push(names@[i as int]@));
        }
        i = i + 1;
    }
    assert(all.subrange(0, all.len() as int) == all);
    if found.len() == 0 {
        return None;
    }
    Some(sort_names(found))
}

} // verus!
