use vstd::prelude::*;
use crate::text::{views, str_is};
use crate::builtins::{get_command, spec_get_command};

verus! {

/// Where a redirection operator sends output, and how:
/// `(to standard error, appending)`.
pub open spec fn redirect_kind(t: Seq<char>) -> Option<(bool, bool)> {
    if t == seq!['>'] || t == seq!['1', '>'] {
        Some((false, false))
    } else if t == seq!['2', '>'] {
        Some((true, false))
    } else if t == seq!['>', '>'] || t == seq!['1', '>', '>'] {
        Some((false, true))
    } else if t == seq!['2', '>', '>'] {
        Some((true, true))
    } else {
        None
    }
}

/// A redirection operator ends with `>`; it sends standard error when it
/// starts with `2`, and it appends when it holds `>>`.
pub proof fn lemma_redirect_kind_meaning(t: Seq<char>)
    ensures
        redirect_kind(t) matches Some((to_stderr, append)) ==> {
            &&& t.len() > 0 && t.last() == '>'
            &&& to_stderr == (t[0] == '2')
            &&& append == (t.len() >= 2 && t[t.len() - 2] == '>')
        },
{
}

/// `pos` is the first word of `parts` that is a redirection operator.
pub open spec fn is_first_redirect(parts: Seq<Seq<char>>, pos: int) -> bool {
    &&& 0 <= pos < parts.len()
    &&& redirect_kind(parts[pos]) is Some
    &&& forall|j: int| 0 <= j < pos ==> redirect_kind(#[trigger] parts[j]) is None
}

/// A command's words once a redirection has been taken out of them.
pub struct Redirection {
    pub parts: Vec<String>,
    pub file: Option<String>,
    pub to_stderr: bool,
    pub append: bool,
}

fn redirect_kind_of(t: &String) -> (res: Option<(bool, bool)>)
    ensures
        res == redirect_kind(t@),
{
    proof {
        reveal_strlit(">");
        reveal_strlit("1>");
        reveal_strlit("2>");
        reveal_strlit(">>");
        reveal_strlit("1>>");
        reveal_strlit("2>>");
        assert(">"@ =~= seq!['>']);
        assert("1>"@ =~= seq!['1', '>']);
        assert("2>"@ =~= seq!['2', '>']);
        assert(">>"@ =~= seq!['>', '>']);
        assert("1>>"@ =~= seq!['1', '>', '>']);
        assert("2>>"@ =~= seq!['2', '>', '>']);
    }
    let t = t.as_str();
    if str_is(t, ">") || str_is(t, "1>") {
        Some((false, false))
    } else if str_is(t, "2>") {
        Some((true, false))
    } else if str_is(t, ">>") || str_is(t, "1>>") {
        Some((false, true))
    } else if str_is(t, "2>>") {
        Some((true, true))
    } else {
        None
    }
}

/// Finds the first redirection operator (`>`, `1>`, `2>`, `>>`, `1>>`,
/// `2>>`) among a command's words. Its kind sets where the output goes and
/// whether the file is appended to; when a word follows it, that word is
/// the file and the command's words end before the operator.
pub fn parse_redirection(parts: Vec<String>) -> (res: Redirection)
    ensures
        (forall|j: int| 0 <= j < parts@.len() ==> redirect_kind(#[trigger] views(parts@)[j]) is None)
            ==> {
            &&& views(res.parts@) == views(parts@)
            &&& res.file is None
            &&& !res.to_stderr
            &&& !res.append
        },
        forall|pos: int| #[trigger] is_first_redirect(views(parts@), pos) ==> {
            &&& (res.to_stderr, res.append) == redirect_kind(views(parts@)[pos])->0
            &&& pos + 1 < parts@.len() ==> {
                &&& res.file matches Some(f) && f@ == views(parts@)[pos + 1]
                &&& views(res.parts@) == views(parts@).subrange(0, pos)
            }
            &&& pos + 1 >= parts@.len() ==> {
                &&& res.file is None
                &&& views(res.parts@) == views(parts@)
            }
        },
{
    let ghost p = views(parts@);
    let mut i: usize = 0;
    while i < parts.len()
        invariant
            i <= parts@.len(),
            p == views(parts@),
            forall|j: int| 0 <= j < i ==> redirect_kind(#[trigger] p[j]) is None,
        decreases parts.len() - i,
    {
        match redirect_kind_of(&parts[i]) {
            Some((to_stderr, append)) => {
                assert(is_first_redirect(p, i as int));
                assert forall|pos: int| #[trigger] is_first_redirect(p, pos) implies pos == i by {
                    if pos < i {
                        assert(redirect_kind(p[pos]) is None);
                    } else if pos > i {
                        assert(redirect_kind(p[i as int]) is None);
                    }
                }
                if i + 1 < parts.len() {
                    let file = parts[i + 1].clone();
                    let mut parts = parts;
                    parts.truncate(i);
                    assert(views(parts@) =~= p.subrange(0, i as int));
                    return Redirection { parts, file: Some(file), to_stderr, append };
                } else {
                    return Redirection { parts, file: None, to_stderr, append };
                }
            },
            None => {},
        }
        i = i + 1;
    }
    assert forall|pos: int| #[trigger] is_first_redirect(p, pos) implies false by {
        assert(redirect_kind(p[pos]) is None);
    }
    Redirection { parts, file: None, to_stderr: false, append: false }
}

/// The segments of a command's words between `|` words, as
/// `<[T]>::split` forms them: `n` bars give `n + 1` segments, some of
/// which may be empty.
pub open spec fn split_segments(parts: Seq<Seq<char>>) -> Seq<Seq<Seq<char>>>
    decreases parts.len(),
{
    if parts.len() == 0 {
        seq![Seq::empty()]
    } else {
        let before = split_segments(parts.drop_last());
        if parts.last() == seq!['|'] {
            before.push(Seq::empty())
        } else {
            before.update(before.len() - 1, before.last().push(parts.last()))
        }
    }
}

/// The segments joined back together with a `|` word between each two.
pub open spec fn rejoin_segments(segs: Seq<Seq<Seq<char>>>) -> Seq<Seq<char>>
    decreases segs.len(),
{
    if segs.len() <= 1 {
        if segs.len() == 1 { segs[0] } else { Seq::empty() }
    } else {
        rejoin_segments(segs.drop_last()) + seq![seq!['|']] + segs.last()
    }
}

proof fn lemma_rejoin_extend_last(segs: Seq<Seq<Seq<char>>>, w: Seq<char>)
    requires
        segs.len() >= 1,
    ensures
        rejoin_segments(segs.update(segs.len() - 1, segs.last().push(w))) == rejoin_segments(segs).push(w),
{
    let u = segs.update(segs.len() - 1, segs.last().push(w));
    if segs.len() > 1 {
        assert(u.drop_last() == segs.drop_last());
        assert(u.last() == segs.last().push(w));
        let r = rejoin_segments(segs.drop_last()) + seq![seq!['|']];
        assert(r + segs.last().push(w) == (r + segs.last()).push(w));
    }
}

/// Splitting a command at its `|` words and joining the segments back
/// with `|` gives the command again, and no segment holds a `|` word.
pub proof fn lemma_split_segments_rejoin(parts: Seq<Seq<char>>)
    ensures
        split_segments(parts).len() >= 1,
        rejoin_segments(split_segments(parts)) == parts,
        forall|i: int, j: int| 0 <= i < split_segments(parts).len() && 0 <= j < split_segments(parts)[i].len()
            ==> #[trigger] split_segments(parts)[i][j] != seq!['|'],
    decreases parts.len(),
{
    if parts.len() == 0 {
        assert(rejoin_segments(seq![Seq::<Seq<char>>::empty()]) == Seq::<Seq<char>>::empty());
    } else {
        let before = split_segments(parts.drop_last());
        lemma_split_segments_rejoin(parts.drop_last());
        let segs = split_segments(parts);
        if parts.last() == seq!['|'] {
            assert(segs == before.push(Seq::empty()));
            assert(segs.drop_last() == before);
            assert(rejoin_segments(segs) =~= parts.drop_last() + seq![seq!['|']] + Seq::<Seq<char>>::empty());
            assert(parts =~= parts.drop_last().push(parts.last()));
            assert forall|i: int, j: int| 0 <= i < segs.len() && 0 <= j < segs[i].len()
                implies #[trigger] segs[i][j] != seq!['|'] by {
                assert(i < before.len());
                assert(segs[i] == before[i]);
            }
        } else {
            lemma_rejoin_extend_last(before, parts.last());
            assert(parts =~= parts.drop_last().push(parts.last()));
            assert forall|i: int, j: int| 0 <= i < segs.len() && 0 <= j < segs[i].len()
                implies #[trigger] segs[i][j] != seq!['|'] by {
                if i == before.len() - 1 {
                    if j < before[i].len() {
                        assert(segs[i][j] == before[i][j]);
                    }
                } else {
                    assert(segs[i] == before[i]);
                }
            }
        }
    }
}

/// Every segment's view.
pub open spec fn segment_views(segs: Seq<Vec<String>>) -> Seq<Seq<Seq<char>>> {
    segs.map_values(|s: Vec<String>| views(s@))
}

/// Splits a command's words at each `|` word.
pub fn split_pipeline(parts: &Vec<String>) -> (res: Vec<Vec<String>>)
    ensures
        segment_views(res@) == split_segments(views(parts@)),
{
    let ghost p = views(parts@);
    let mut done: Vec<Vec<String>> = Vec::new();
    let mut current: Vec<String> = Vec::new();
    let mut i: usize = 0;
    proof {
        assert(p.subrange(0, 0) =~= Seq::<Seq<char>>::empty());
        assert(segment_views(done@) =~= Seq::<Seq<Seq<char>>>::empty());
        assert(views(current@) =~= Seq::<Seq<char>>::empty());
        assert(segment_views(done@).push(views(current@)) =~= seq![Seq::<Seq<char>>::empty()]);
    }
    while i < parts.len()
        invariant
            i <= parts@.len(),
            p == views(parts@),
            segment_views(done@).push(views(current@)) == split_segments(p.subrange(0, i as int)),
        decreases parts.len() - i,
    {
        let ghost sub = p.subrange(0, i + 1);
        assert(sub.drop_last() == p.subrange(0, i as int));
        assert(sub.last() == parts@[i as int]@);
        proof {
            reveal_strlit("|");
            assert("|"@ =~= seq!['|']);
        }
        if str_is(parts[i].as_str(), "|") {
            let ghost before = segment_views(done@);
            let seg = current;
            done.push(seg);
            current = Vec::new();
            assert(segment_views(done@) =~= before.push(views(seg@)));
            assert(views(current@) =~= Seq::<Seq<char>>::empty());
            assert(segment_views(done@).push(views(current@)) =~= split_segments(sub));
        } else {
            let ghost before = views(current@);
            current.push(parts[i].clone());
            assert(views(current@) =~= before.push(parts@[i as int]@));
            assert(segment_views(done@).push(views(current@)) =~= split_segments(sub));
        }
        i = i + 1;
    }
    assert(p.subrange(0, parts@.len() as int) == p);
    let ghost before = segment_views(done@);
    done.push(current);
    assert(segment_views(done@) =~= before.push(views(current@)));
    done
}

/// How one stage of a pipeline is started.
pub enum StageCommand {
    /// A builtin: the shell runs itself with these arguments.
    Internal(Vec<String>),
    /// A program found by name, with its arguments.
    External(String, Vec<String>),
}

/// One process of a pipeline and how its standard streams are connected.
pub struct Stage {
    pub command: StageCommand,
    /// Reads the previous stage's output.
    pub stdin_piped: bool,
    /// Writes into a pipe for the next stage; otherwise to the terminal.
    pub stdout_piped: bool,
}

/// The flag that makes the shell run one builtin and exit.
pub open spec fn internal_run_flag() -> Seq<char> {
    seq!['-', '-', 'i', 'n', 't', 'e', 'r', 'n', 'a', 'l', '-', 'r', 'u', 'n']
}

/// What a pipeline stage runs for a given segment of words.
pub open spec fn stage_command_matches(cmd: StageCommand, seg: Seq<Seq<char>>) -> bool {
    if spec_get_command(seg[0]) is Some {
        cmd matches StageCommand::Internal(args) && views(args@) == seq![internal_run_flag()] + seg
    } else {
        cmd matches StageCommand::External(prog, args) && prog@ == seg[0] && views(args@)
            == seg.drop_first()
    }
}

/// Lays out a pipeline: each segment becomes a process, builtins being
/// run by the shell itself, and each process but the last writes into a
/// pipe that the next one reads.
pub fn execute_pipeline(segments: &Vec<Vec<String>>) -> (res: Vec<Stage>)
    requires
        forall|i: int| 0 <= i < segments@.len() ==> #[trigger] segments@[i]@.len() > 0,
    ensures
        res@.len() == segments@.len(),
        forall|i: int|
            0 <= i < res@.len() ==> {
                &&& stage_command_matches(#[trigger] res@[i].command, views(segments@[i]@))
                &&& res@[i].stdin_piped == (i > 0)
                &&& res@[i].stdout_piped == (i + 1 < segments@.len())
            },
{
    let mut stages: Vec<Stage> = Vec::new();
    let n = segments.len();
    let mut i: usize = 0;
    while i < n
        invariant
            n == segments@.len(),
            i <= n,
            stages@.len() == i,
            forall|k: int| 0 <= k < segments@.len() ==> #[trigger] segments@[k]@.len() > 0,
            forall|k: int|
                0 <= k < i ==> {
                    &&& stage_command_matches(#[trigger] stages@[k].command, views(segments@[k]@))
                    &&& stages@[k].stdin_piped == (k > 0)
                    &&& stages@[k].stdout_piped == (k + 1 < n)
                },
        decreases n - i,
    {
        let seg = &segments[i];
        assert(seg@.len() > 0);
        let name = &seg[0];
        let command = if get_command(name.as_str()).is_some() {
            let mut args: Vec<String> = Vec::new();
            args.push(String::from_str("--internal-run"));
            let mut k: usize = 0;
            proof {
                reveal_strlit("--internal-run");
                assert("--internal-run"@ =~= internal_run_flag());
                assert(views(args@) =~= seq![internal_run_flag()]);
                assert(views(seg@).subrange(0, 0) =~= Seq::<Seq<char>>::empty());
            }
            while k < seg.len()
                invariant
                    k <= seg@.len(),
                    views(args@) == seq![internal_run_flag()] + views(seg@).subrange(0, k as int),
                decreases seg.len() - k,
            {
                let ghost before = views(args@);
                args.push(seg[k].clone());
                assert(views(args@) =~= before.push(seg@[k as int]@));
                assert(views(args@) =~= seq![internal_run_flag()] + views(seg@).subrange(0, k + 1));
                k = k + 1;
            }
            assert(views(seg@).subrange(0, seg@.len() as int) == views(seg@));
            StageCommand::Internal(args)
        } else {
            let mut args: Vec<String> = Vec::new();
            let mut k: usize = 1;
            assert(views(args@) =~= views(seg@).subrange(1, 1));
            while k < seg.len()
                invariant
                    1 <= k <= seg@.len(),
                    views(args@) == views(seg@).subrange(1, k as int),
                decreases seg.len() - k,
            {
                let ghost before = views(args@);
                args.push(seg[k].clone());
                assert(views(args@) =~= before.push(seg@[k as int]@));
                assert(views(args@) =~= views(seg@).subrange(1, k + 1));
                k = k + 1;
            }
            assert(views(seg@).subrange(1, seg@.len() as int) =~= views(seg@).drop_first());
            StageCommand::External(name.clone(), args)
        };
        stages.push(Stage { command, stdin_piped: i > 0, stdout_piped: i + 1 < n });
        i = i + 1;
    }
    stages
}

} // verus!
