use vstd::prelude::*;
use crate::text::{views, chars_of, string_from_chars};
use crate::paths::{Platform, has_exe_suffix, has_executable_suffix};

verus! {

broadcast use vstd::seq_lib::group_to_multiset_ensures;

/// `p` is a prefix of `s`.
pub open spec fn is_prefix(p: Seq<char>, s: Seq<char>) -> bool {
    p.len() <= s.len() && s.subrange(0, p.len() as int) == p
}

/// Lexicographic order on characters, the order in which Rust compares
/// strings (UTF-8 preserves the order of code points).
pub open spec fn lex_le(a: Seq<char>, b: Seq<char>) -> bool
    decreases a.len(),
{
    if a.len() == 0 {
        true
    } else if b.len() == 0 {
        false
    } else if a[0] != b[0] {
        a[0] < b[0]
    } else {
        lex_le(a.drop_first(), b.drop_first())
    }
}

pub open spec fn sorted(s: Seq<Seq<char>>) -> bool {
    forall|i: int, j: int| 0 <= i <= j < s.len() ==> lex_le(#[trigger] s[i], #[trigger] s[j])
}

proof fn lemma_lex_total(a: Seq<char>, b: Seq<char>)
    ensures
        lex_le(a, b) || lex_le(b, a),
    decreases a.len(),
{
    if a.len() > 0 && b.len() > 0 && a[0] == b[0] {
        lemma_lex_total(a.drop_first(), b.drop_first());
    }
}

proof fn lemma_lex_trans(a: Seq<char>, b: Seq<char>, c: Seq<char>)
    requires
        lex_le(a, b),
        lex_le(b, c),
    ensures
        lex_le(a, c),
    decreases a.len(),
{
    if a.len() > 0 && b.len() > 0 && c.len() > 0 && a[0] == b[0] && b[0] == c[0] {
        lemma_lex_trans(a.drop_first(), b.drop_first(), c.drop_first());
    }
}

/// Whether `p` is a prefix of `s`, character by character.
pub fn starts_with(s: &Vec<char>, p: &Vec<char>) -> (res: bool)
    ensures
        res == is_prefix(p@, s@),
{
    if p.len() > s.len() {
        return false;
    }
    let mut i: usize = 0;
    while i < p.len()
        invariant
            p@.len() <= s@.len(),
            i <= p@.len(),
            s@.subrange(0, i as int) == p@.subrange(0, i as int),
        decreases p.len() - i,
    {
        if s[i] != p[i] {
            assert(s@.subrange(0, p@.len() as int)[i as int] != p@[i as int]);
            return false;
        }
        assert(s@.subrange(0, i + 1) =~= p@.subrange(0, i + 1));
        i = i + 1;
    }
    assert(p@.subrange(0, p@.len() as int) == p@);
    true
}

fn lex_le_exec(a: &Vec<char>, b: &Vec<char>) -> (res: bool)
    ensures
        res == lex_le(a@, b@),
{
    let mut i: usize = 0;
    assert(a@.skip(0) == a@);
    assert(b@.skip(0) == b@);
    while i < a.len() && i < b.len()
        invariant
            i <= a@.len(),
            i <= b@.len(),
            lex_le(a@, b@) == lex_le(a@.skip(i as int), b@.skip(i as int)),
        decreases a.len() - i,
    {
        if a[i] != b[i] {
            return a[i] < b[i];
        }
        assert(a@.skip(i as int).drop_first() == a@.skip(i + 1));
        assert(b@.skip(i as int).drop_first() == b@.skip(i + 1));
        i = i + 1;
    }
    i == a.len()
}

/// Sorts names into lexicographic order.
pub fn sort_names(names: Vec<String>) -> (res: Vec<String>)
    ensures
        sorted(views(res@)),
        views(res@).to_multiset() == views(names@).to_multiset(),
{
    let mut out: Vec<String> = Vec::new();
    let mut keys: Vec<Vec<char>> = Vec::new();
    let mut i: usize = 0;
    assert(views(out@) =~= views(names@).subrange(0, 0));
    while i < names.len()
        invariant
            i <= names@.len(),
            keys@.len() == out@.len(),
            forall|k: int| 0 <= k < keys@.len() ==> #[trigger] keys@[k]@ == out@[k]@,
            sorted(views(out@)),
            views(out@).to_multiset() == views(names@).subrange(0, i as int).to_multiset(),
        decreases names.len() - i,
    {
        let key = chars_of(names[i].as_str());
        let mut p: usize = 0;
        while p < keys.len() && lex_le_exec(&keys[p], &key)
            invariant
                p <= keys@.len(),
                keys@.len() == out@.len(),
                forall|k: int| 0 <= k < keys@.len() ==> #[trigger] keys@[k]@ == out@[k]@,
                forall|k: int| 0 <= k < p ==> lex_le(#[trigger] out@[k]@, key@),
            decreases keys.len() - p,
        {
            p = p + 1;
        }
        let ghost before = views(out@);
        let ghost old_out = out@;
        let ghost old_keys = keys@;
        let ghost x = names@[i as int]@;
        assert(key@ == x);
        proof {
            if p < keys@.len() {
                assert(!lex_le(before[p as int], x));
                lemma_lex_total(before[p as int], x);
                assert forall|k: int| p <= k < before.len() implies lex_le(x, #[trigger] before[k]) by {
                    assert(lex_le(before[p as int], before[k]));
                    lemma_lex_trans(x, before[p as int], before[k]);
                }
            }
        }
        out.insert(p, names[i].clone());
        keys.insert(p, key);
        assert(views(out@) =~= before.insert(p as int, x));
        assert(sorted(views(out@))) by {
            let v = views(out@);
            assert forall|a: int, b: int| 0 <= a <= b < v.len() implies lex_le(#[trigger] v[a], #[trigger] v[b]) by {
                if a < p && b < p {
                } else if a < p && b == p {
                } else if a < p && b > p {
                    assert(v[b] == before[b - 1]);
                    assert(lex_le(before[a], before[b - 1]));
                } else if a == p && b == p {
                    lemma_lex_total(x, x);
                } else if a == p {
                    assert(v[b] == before[b - 1]);
                } else {
                    assert(v[a] == before[a - 1]);
                    assert(v[b] == before[b - 1]);
                }
            }
        }
        proof {
            vstd::seq_lib::to_multiset_insert(before, p as int, x);
            assert(views(names@).subrange(0, i + 1) == views(names@).subrange(0, i as int).push(x));
        }
        assert forall|k: int| 0 <= k < keys@.len() implies #[trigger] keys@[k]@ == out@[k]@ by {
            if k < p {
                assert(keys@[k] == old_keys[k] && out@[k] == old_out[k]);
            } else if k == p {
            } else {
                assert(keys@[k] == old_keys[k - 1] && out@[k] == old_out[k - 1]);
            }
        }
        i = i + 1;
    }
    assert(views(names@).subrange(0, names@.len() as int) == views(names@));
    out
}

} // verus!

verus! {

/// The names among `names` that start with `p`, in their order.
pub open spec fn names_with_prefix(p: Seq<char>, names: Seq<Seq<char>>) -> Seq<Seq<char>>
    decreases names.len(),
{
    if names.len() == 0 {
        Seq::empty()
    } else {
        let before = names_with_prefix(p, names.drop_last());
        if is_prefix(p, names.last()) {
            before.push(names.last())
        } else {
            before
        }
    }
}

/// A file name on the search path completes a partial command: it
/// starts with it and ends with one of the platform's executable
/// extensions.
pub open spec fn is_path_candidate(p: Platform, partial: Seq<char>, name: Seq<char>) -> bool {
    is_prefix(partial, name) && has_exe_suffix(p, name)
}

/// The names among `names` that complete `partial`, in their order.
pub open spec fn path_candidates(p: Platform, partial: Seq<char>, names: Seq<Seq<char>>) -> Seq<Seq<char>>
    decreases names.len(),
{
    if names.len() == 0 {
        Seq::empty()
    } else {
        let before = path_candidates(p, partial, names.drop_last());
        if is_path_candidate(p, partial, names.last()) {
            before.push(names.last())
        } else {
            before
        }
    }
}

/// Whether a file name on the search path could complete a partial
/// command.
pub fn is_completion_candidate(p: Platform, partial_input: &str, name: &str) -> (res: bool)
    ensures
        res == is_path_candidate(p, partial_input@, name@),
{
    starts_with(&chars_of(name), &chars_of(partial_input)) && has_executable_suffix(p, name)
}

/// The completions of a partial command among the executables found on
/// the search path: those that complete it, sorted. There are none for
/// an empty partial command, nor when no name matches.
pub fn find_all_match_in_path(p: Platform, partial_input: &str, executables: &Vec<String>) -> (res: Option<Vec<String>>)
    ensures
        partial_input@.len() == 0 ==> res is None,
        partial_input@.len() > 0 ==> {
            let m = path_candidates(p, partial_input@, views(executables@));
            &&& m.len() == 0 ==> res is None
            &&& m.len() > 0 ==> (res matches Some(r) && sorted(views(r@)) && views(r@).to_multiset()
                == m.to_multiset())
        },
{
    if partial_input.unicode_len() == 0 {
        return None;
    }
    let ghost names = views(executables@);
    let mut found: Vec<String> = Vec::new();
    let mut i: usize = 0;
    assert(views(found@) =~= path_candidates(p, partial_input@, names.subrange(0, 0)));
    while i < executables.len()
        invariant
            i <= executables@.len(),
            names == views(executables@),
            views(found@) == path_candidates(p, partial_input@, names.subrange(0, i as int)),
        decreases executables.len() - i,
    {
        let ghost sub = names.subrange(0, i + 1);
        assert(sub.drop_last() == names.subrange(0, i as int));
        assert(sub.last() == executables@[i as int]@);
        if is_completion_candidate(p, partial_input, executables[i].as_str()) {
            let ghost before = views(found@);
            found.push(executables[i].clone());
            assert(views(found@) =~= before.push(executables@[i as int]@));
        }
        i = i + 1;
    }
    assert(names.subrange(0, names.len() as int) == names);
    if found.len() == 0 {
        return None;
    }
    Some(sort_names(found))
}

/// The longest common prefix of two character sequences.
pub open spec fn spec_lcp(a: Seq<char>, b: Seq<char>) -> Seq<char>
    decreases a.len(),
{
    if a.len() == 0 || b.len() == 0 || a[0] != b[0] {
        Seq::empty()
    } else {
        seq![a[0]] + spec_lcp(a.drop_first(), b.drop_first())
    }
}

/// The longest common prefix of a sorted list of names, found from its
/// first and last names; empty for an empty list.
pub fn longest_common_prefix(strings: &Vec<String>) -> (res: String)
    ensures
        strings@.len() == 0 ==> res@.len() == 0,
        strings@.len() > 0 ==> res@ == spec_lcp(strings@[0]@, strings@[strings@.len() - 1]@),
{
    if strings.len() == 0 {
        return String::new();
    }
    let first_match = chars_of(strings[0].as_str());
    let last_match = chars_of(strings[strings.len() - 1].as_str());
    let mut lcp: Vec<char> = Vec::new();
    let n = if first_match.len() < last_match.len() { first_match.len() } else { last_match.len() };
    let mut i: usize = 0;
    assert(first_match@.skip(0) == first_match@);
    assert(last_match@.skip(0) == last_match@);
    while i < n
        invariant
            strings@.len() > 0,
            first_match@ == strings@[0]@,
            last_match@ == strings@[strings@.len() - 1]@,
            n <= first_match@.len(),
            n <= last_match@.len(),
            n == first_match@.len() || n == last_match@.len(),
            i <= n,
            spec_lcp(first_match@, last_match@) == lcp@ + spec_lcp(first_match@.skip(i as int), last_match@.skip(i as int)),
        decreases n - i,
    {
        assert(first_match@.skip(i as int)[0] == first_match@[i as int]);
        assert(last_match@.skip(i as int)[0] == last_match@[i as int]);
        if first_match[i] != last_match[i] {
            assert(lcp@ + Seq::<char>::empty() == lcp@);
            return string_from_chars(&lcp);
        }
        assert(first_match@.skip(i as int).drop_first() == first_match@.skip(i + 1));
        assert(last_match@.skip(i as int).drop_first() == last_match@.skip(i + 1));
        let ghost before = lcp@;
        lcp.push(first_match[i]);
        assert(lcp@ == before + seq![first_match@[i as int]]);
        assert(before + (seq![first_match@[i as int]] + spec_lcp(first_match@.skip(i + 1), last_match@.skip(i + 1)))
            == lcp@ + spec_lcp(first_match@.skip(i + 1), last_match@.skip(i + 1)));
        i = i + 1;
    }
    assert(first_match@.skip(i as int).len() == 0 || last_match@.skip(i as int).len() == 0);
    assert(lcp@ + Seq::<char>::empty() == lcp@);
    string_from_chars(&lcp)
}

proof fn lemma_lcp_common(a: Seq<char>, b: Seq<char>)
    ensures
        is_prefix(spec_lcp(a, b), a),
        is_prefix(spec_lcp(a, b), b),
    decreases a.len(),
{
    if !(a.len() == 0 || b.len() == 0 || a[0] != b[0]) {
        lemma_lcp_common(a.drop_first(), b.drop_first());
        let r = spec_lcp(a.drop_first(), b.drop_first());
        assert(spec_lcp(a, b) == seq![a[0]] + r);
        assert(a.subrange(0, r.len() as int + 1) =~= seq![a[0]] + a.drop_first().subrange(0, r.len() as int));
        assert(b.subrange(0, r.len() as int + 1) =~= seq![b[0]] + b.drop_first().subrange(0, r.len() as int));
    } else {
        assert(a.subrange(0, 0) =~= Seq::<char>::empty());
        assert(b.subrange(0, 0) =~= Seq::<char>::empty());
    }
}

proof fn lemma_lcp_longest(a: Seq<char>, b: Seq<char>, p: Seq<char>)
    requires
        is_prefix(p, a),
        is_prefix(p, b),
    ensures
        is_prefix(p, spec_lcp(a, b)),
    decreases a.len(),
{
    if p.len() > 0 {
        assert(a[0] == p[0]);
        assert(b[0] == p[0]);
        let p2 = p.drop_first();
        assert(a.drop_first().subrange(0, p2.len() as int) =~= p2);
        assert(b.drop_first().subrange(0, p2.len() as int) =~= p2);
        lemma_lcp_longest(a.drop_first(), b.drop_first(), p2);
        let r = spec_lcp(a.drop_first(), b.drop_first());
        assert(spec_lcp(a, b) == seq![a[0]] + r);
        assert(p =~= seq![p[0]] + p2);
        assert((seq![a[0]] + r).subrange(0, p.len() as int) =~= seq![a[0]] + r.subrange(0, p2.len() as int));
    } else {
        assert(spec_lcp(a, b).subrange(0, 0) =~= p);
    }
}

proof fn lemma_prefix_between(a: Seq<char>, b: Seq<char>, c: Seq<char>, p: Seq<char>)
    requires
        lex_le(a, b),
        lex_le(b, c),
        is_prefix(p, a),
        is_prefix(p, c),
    ensures
        is_prefix(p, b),
    decreases p.len(),
{
    if p.len() > 0 {
        assert(a[0] == p[0] && c[0] == p[0]);
        assert(b.len() > 0);
        lemma_lex_trans(a, b, c);
        assert(b[0] == p[0]);
        let p2 = p.drop_first();
        assert(a.drop_first().subrange(0, p2.len() as int) =~= p2);
        assert(c.drop_first().subrange(0, p2.len() as int) =~= p2);
        lemma_prefix_between(a.drop_first(), b.drop_first(), c.drop_first(), p2);
        assert(p =~= seq![p[0]] + p2);
        assert(b.subrange(0, p.len() as int) =~= seq![b[0]] + b.drop_first().subrange(0, p2.len() as int));
    } else {
        assert(b.subrange(0, 0) =~= p);
    }
}

/// `p` is a prefix of every name.
pub open spec fn is_common_prefix(p: Seq<char>, names: Seq<Seq<char>>) -> bool {
    forall|i: int| 0 <= i < names.len() ==> is_prefix(p, #[trigger] names[i])
}

/// In a sorted list, the common prefix of the first and last names is
/// the longest prefix that all the names share: it is a prefix of every
/// name, and every prefix they all share is a prefix of it.
pub proof fn lemma_lcp_of_sorted_is_common(names: Seq<Seq<char>>)
    requires
        names.len() > 0,
        sorted(names),
    ensures
        forall|i: int| 0 <= i < names.len() ==> is_prefix(spec_lcp(names[0], names[names.len() - 1]), #[trigger] names[i]),
        forall|p: Seq<char>| #[trigger] is_common_prefix(p, names)
            ==> is_prefix(p, spec_lcp(names[0], names[names.len() - 1])),
{
    let first = names[0];
    let last = names[names.len() - 1];
    lemma_lcp_common(first, last);
    assert forall|i: int| 0 <= i < names.len() implies is_prefix(spec_lcp(first, last), #[trigger] names[i]) by {
        assert(lex_le(names[0], names[i]));
        assert(lex_le(names[i], names[names.len() - 1]));
        lemma_prefix_between(first, names[i], last, spec_lcp(first, last));
    }
    assert forall|p: Seq<char>| #[trigger] is_common_prefix(p, names)
        implies is_prefix(p, spec_lcp(first, last)) by {
        assert(is_prefix(p, names[0]));
        assert(is_prefix(p, names[names.len() - 1]));
        lemma_lcp_longest(first, last, p);
    }
}

} // verus!

verus! {

/// The longest common prefix of all the names in a list, folded from the
/// left; empty for an empty list.
pub open spec fn spec_lcp_all(names: Seq<Seq<char>>) -> Seq<char>
    decreases names.len(),
{
    if names.len() == 0 {
        Seq::empty()
    } else if names.len() == 1 {
        names[0]
    } else {
        spec_lcp(spec_lcp_all(names.drop_last()), names.last())
    }
}

fn lcp_of_two(a: &Vec<char>, b: &Vec<char>) -> (res: Vec<char>)
    ensures
        res@ == spec_lcp(a@, b@),
{
    let mut out: Vec<char> = Vec::new();
    let mut i: usize = 0;
    assert(a@.skip(0) == a@);
    assert(b@.skip(0) == b@);
    while i < a.len() && i < b.len()
        invariant
            i <= a@.len(),
            i <= b@.len(),
            spec_lcp(a@, b@) == out@ + spec_lcp(a@.skip(i as int), b@.skip(i as int)),
        decreases a.len() - i,
    {
        assert(a@.skip(i as int)[0] == a@[i as int]);
        assert(b@.skip(i as int)[0] == b@[i as int]);
        if a[i] != b[i] {
            assert(out@ + Seq::<char>::empty() == out@);
            return out;
        }
        assert(a@.skip(i as int).drop_first() == a@.skip(i + 1));
        assert(b@.skip(i as int).drop_first() == b@.skip(i + 1));
        let ghost before = out@;
        out.push(a[i]);
        assert(before + (seq![a@[i as int]] + spec_lcp(a@.skip(i + 1), b@.skip(i + 1)))
            == out@ + spec_lcp(a@.skip(i + 1), b@.skip(i + 1)));
        i = i + 1;
    }
    assert(out@ + Seq::<char>::empty() == out@);
    out
}

/// The longest common prefix of all the names in a list.
pub fn lcp_of_all(names: &Vec<String>) -> (res: Vec<char>)
    ensures
        res@ == spec_lcp_all(views(names@)),
{
    let ghost all = views(names@);
    if names.len() == 0 {
        return Vec::new();
    }
    let mut acc = chars_of(names[0].as_str());
    let mut i: usize = 1;
    assert(all.subrange(0, 1) =~= seq![all[0]]);
    while i < names.len()
        invariant
            1 <= i <= names@.len(),
            all == views(names@),
            acc@ == spec_lcp_all(all.subrange(0, i as int)),
        decreases names.len() - i,
    {
        let ghost sub = all.subrange(0, i + 1);
        assert(sub.drop_last() == all.subrange(0, i as int));
        assert(sub.last() == names@[i as int]@);
        acc = lcp_of_two(&acc, &chars_of(names[i].as_str()));
        i = i + 1;
    }
    assert(all.subrange(0, all.len() as int) == all);
    acc
}

proof fn lemma_prefix_trans(a: Seq<char>, b: Seq<char>, c: Seq<char>)
    requires
        is_prefix(a, b),
        is_prefix(b, c),
    ensures
        is_prefix(a, c),
{
    assert(c.subrange(0, a.len() as int) =~= b.subrange(0, a.len() as int));
}

/// The common prefix of all the names in a nonempty list is the longest
/// prefix they share: it is a prefix of every name, and every prefix they
/// all share is a prefix of it.
pub proof fn lemma_lcp_all_is_common(names: Seq<Seq<char>>)
    requires
        names.len() > 0,
    ensures
        is_common_prefix(spec_lcp_all(names), names),
        forall|p: Seq<char>| #[trigger] is_common_prefix(p, names) ==> is_prefix(p, spec_lcp_all(names)),
    decreases names.len(),
{
    if names.len() == 1 {
        assert(names[0].subrange(0, names[0].len() as int) == names[0]);
    } else {
        let init = names.drop_last();
        lemma_lcp_all_is_common(init);
        let l = spec_lcp_all(init);
        lemma_lcp_common(l, names.last());
        assert forall|i: int| 0 <= i < names.len() implies is_prefix(spec_lcp_all(names), #[trigger] names[i]) by {
            if i < names.len() - 1 {
                assert(names[i] == init[i]);
                lemma_prefix_trans(spec_lcp_all(names), l, names[i]);
            }
        }
        assert forall|p: Seq<char>| #[trigger] is_common_prefix(p, names) implies is_prefix(p, spec_lcp_all(names)) by {
            assert forall|i: int| 0 <= i < init.len() implies is_prefix(p, #[trigger] init[i]) by {
                assert(init[i] == names[i]);
            }
            assert(is_common_prefix(p, init));
            assert(is_prefix(p, names[names.len() - 1]));
            lemma_lcp_longest(l, names.last(), p);
        }
    }
}

/// The names kept by `names_with_prefix` are names of the list that start
/// with the prefix.
pub proof fn lemma_names_with_prefix_members(p: Seq<char>, names: Seq<Seq<char>>)
    ensures
        forall|i: int| 0 <= i < names_with_prefix(p, names).len() ==> names.contains(#[trigger] names_with_prefix(p, names)[i])
            && is_prefix(p, names_with_prefix(p, names)[i]),
    decreases names.len(),
{
    if names.len() > 0 {
        let init = names.drop_last();
        lemma_names_with_prefix_members(p, init);
        let r = names_with_prefix(p, names);
        assert forall|i: int| 0 <= i < r.len() implies names.contains(#[trigger] r[i]) && is_prefix(p, r[i]) by {
            if i < names_with_prefix(p, init).len() {
                assert(r[i] == names_with_prefix(p, init)[i]);
                let k = choose|k: int| 0 <= k < init.len() && init[k] == r[i];
                assert(names[k] == r[i]);
            } else {
                assert(r[i] == names.last());
                assert(names[names.len() - 1] == r[i]);
            }
        }
    }
}

/// `names_with_prefix` misses no name: every name of the list that
/// starts with the prefix (the prefix itself included) is kept.
pub proof fn lemma_names_with_prefix_complete(p: Seq<char>, names: Seq<Seq<char>>)
    ensures
        forall|k: int| 0 <= k < names.len() && is_prefix(p, #[trigger] names[k]) ==> names_with_prefix(p, names).contains(names[k]),
    decreases names.len(),
{
    if names.len() > 0 {
        let init = names.drop_last();
        lemma_names_with_prefix_complete(p, init);
        let r0 = names_with_prefix(p, init);
        let r = names_with_prefix(p, names);
        assert forall|k: int| 0 <= k < names.len() && is_prefix(p, #[trigger] names[k]) implies r.contains(names[k]) by {
            if k < names.len() - 1 {
                assert(names[k] == init[k]);
                assert(r0.contains(init[k]));
                let j = choose|j: int| 0 <= j < r0.len() && r0[j] == init[k];
                if is_prefix(p, names.last()) {
                    assert(r[j] == r0[j]);
                } else {
                    assert(r == r0);
                }
            } else {
                assert(names[k] == names.last());
                assert(r[r.len() - 1] == names.last());
            }
        }
    }
}

/// `path_candidates` misses no name: every name of the list that
/// completes the partial command is kept.
pub proof fn lemma_path_candidates_complete(pf: Platform, p: Seq<char>, names: Seq<Seq<char>>)
    ensures
        forall|k: int| 0 <= k < names.len() && is_path_candidate(pf, p, #[trigger] names[k]) ==> path_candidates(pf, p, names).contains(names[k]),
    decreases names.len(),
{
    if names.len() > 0 {
        let init = names.drop_last();
        lemma_path_candidates_complete(pf, p, init);
        let r0 = path_candidates(pf, p, init);
        let r = path_candidates(pf, p, names);
        assert forall|k: int| 0 <= k < names.len() && is_path_candidate(pf, p, #[trigger] names[k]) implies r.contains(names[k]) by {
            if k < names.len() - 1 {
                assert(names[k] == init[k]);
                assert(r0.contains(init[k]));
                let j = choose|j: int| 0 <= j < r0.len() && r0[j] == init[k];
                if is_path_candidate(pf, p, names.last()) {
                    assert(r[j] == r0[j]);
                } else {
                    assert(r == r0);
                }
            } else {
                assert(names[k] == names.last());
                assert(r[r.len() - 1] == names.last());
            }
        }
    }
}

} // verus!
