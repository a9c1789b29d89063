use vstd::prelude::*;

verus! {

/// The character view of every string in a list.
pub open spec fn views(strings: Seq<String>) -> Seq<Seq<char>> {
    strings.map_values(|s: String| s@)
}

/// Compares a string with another, character by character.
pub fn str_is(s: &str, lit: &str) -> (res: bool)
    ensures
        res == (s@ == lit@),
{
    let a = String::from_str(s);
    let b = String::from_str(lit);
    a == b
}

/// Builds an owned string from its characters.
pub fn string_from_chars(chars: &Vec<char>) -> (res: String)
    ensures
        res@ == chars@,
{
    let mut res = String::new();
    let mut i: usize = 0;
    while i < chars.len()
        invariant
            i <= chars.len(),
            res@ == chars@.subrange(0, i as int),
        decreases chars.len() - i,
    {
        push_char(&mut res, chars[i]);
        assert(chars@.subrange(0, i + 1) == chars@.subrange(0, i as int).push(chars@[i as int]));
        i = i + 1;
    }
    assert(chars@.subrange(0, i as int) == chars@);
    res
}

/// `String::push`: appends one character at the end.
#[verifier::external_body]
pub(crate) fn push_char(s: &mut String, c: char)
    ensures
        final(s)@ == old(s)@.push(c),
{
    s.push(c);
}

/// The characters of a string slice, in order.
pub fn chars_of(s: &str) -> (res: Vec<char>)
    ensures
        res@ == s@,
{
    let n = s.unicode_len();
    let mut res: Vec<char> = Vec::new();
    let mut i: usize = 0;
    while i < n
        invariant
            n == s@.len(),
            i <= n,
            res@ == s@.subrange(0, i as int),
        decreases n - i,
    {
        res.push(s.get_char(i));
        assert(s@.subrange(0, i + 1) == s@.subrange(0, i as int).push(s@[i as int]));
        i = i + 1;
    }
    assert(s@.subrange(0, n as int) == s@);
    res
}

} // verus!

verus! {

/// The digit character for a value below ten.
pub open spec fn digit_char(d: nat) -> char {
    (d + 48) as char
}

/// The decimal representation of a number, without leading zeros.
pub open spec fn spec_decimal(n: nat) -> Seq<char>
    decreases n,
{
    if n < 10 {
        seq![digit_char(n)]
    } else {
        spec_decimal(n / 10).push(digit_char(n % 10))
    }
}

fn push_decimal(n: usize, out: &mut Vec<char>)
    ensures
        final(out)@ == old(out)@ + spec_decimal(n as nat),
    decreases n,
{
    if n < 10 {
        out.push(digit_of(n));
    } else {
        push_decimal(n / 10, out);
        out.push(digit_of(n % 10));
    }
}

fn digit_of(d: usize) -> (c: char)
    requires
        d < 10,
    ensures
        c == digit_char(d as nat),
{
    let v: u8 = 48 + (d as u8);
    v as char
}

/// Formats a number in decimal.
pub fn decimal(n: usize) -> (res: String)
    ensures
        res@ == spec_decimal(n as nat),
{
    let mut out: Vec<char> = Vec::new();
    push_decimal(n, &mut out);
    assert(out@ =~= spec_decimal(n as nat));
    string_from_chars(&out)
}

pub open spec fn is_digit(c: char) -> bool {
    '0' <= c <= '9'
}

/// The value of a run of decimal digits.
pub open spec fn digits_value(d: Seq<char>) -> nat
    decreases d.len(),
{
    if d.len() == 0 {
        0
    } else {
        digits_value(d.drop_last()) * 10 + ((d.last() as nat) - 48) as nat
    }
}

/// The digits of an unsigned number as `str::parse` reads them: an
/// optional leading `+` followed by the digits.
pub open spec fn unsigned_digits(s: Seq<char>) -> Seq<char> {
    if s.len() > 0 && s[0] == '+' {
        s.drop_first()
    } else {
        s
    }
}

/// What `str::parse::<usize>` gives: the value of a nonempty run of
/// decimal digits, after an optional `+`, when it fits in a `usize`.
pub open spec fn spec_parse_usize(s: Seq<char>) -> Option<nat> {
    let d = unsigned_digits(s);
    if d.len() > 0 && (forall|i: int| 0 <= i < d.len() ==> is_digit(#[trigger] d[i]))
        && digits_value(d) <= usize::MAX {
        Some(digits_value(d))
    } else {
        None
    }
}

proof fn lemma_digits_value_monotone(d: Seq<char>, i: int, j: int)
    requires
        0 <= i <= j <= d.len(),
        forall|k: int| 0 <= k < d.len() ==> is_digit(#[trigger] d[k]),
    ensures
        digits_value(d.subrange(0, i)) <= digits_value(d.subrange(0, j)),
    decreases j - i,
{
    if i < j {
        lemma_digits_value_monotone(d, i, j - 1);
        assert(d.subrange(0, j).drop_last() == d.subrange(0, j - 1));
    }
}

proof fn lemma_decimal_digits(n: nat)
    ensures
        spec_decimal(n).len() > 0,
        forall|i: int| 0 <= i < spec_decimal(n).len() ==> is_digit(#[trigger] spec_decimal(n)[i]),
        digits_value(spec_decimal(n)) == n,
    decreases n,
{
    if n < 10 {
        assert(digit_char(n) as nat == n + 48);
        assert(spec_decimal(n).drop_last().len() == 0);
        assert(digits_value(spec_decimal(n).drop_last()) == 0);
        assert(spec_decimal(n).last() == digit_char(n));
    } else {
        lemma_decimal_digits(n / 10);
        let d = spec_decimal(n);
        assert(d.drop_last() == spec_decimal(n / 10));
        assert(digit_char(n % 10) as nat == n % 10 + 48);
        assert forall|i: int| 0 <= i < d.len() implies is_digit(#[trigger] d[i]) by {
            if i < d.len() - 1 {
                assert(d[i] == spec_decimal(n / 10)[i]);
            }
        }
        assert(d.last() == digit_char(n % 10));
        assert(digits_value(d) == digits_value(d.drop_last()) * 10 + ((d.last() as nat) - 48) as nat);
        assert((n / 10) * 10 + n % 10 == n);
    }
}

/// Reading back a number written in decimal gives the number again.
pub proof fn lemma_decimal_round_trip(n: nat)
    requires
        n <= usize::MAX,
    ensures
        spec_parse_usize(spec_decimal(n)) == Some(n),
{
    lemma_decimal_digits(n);
    assert(is_digit(spec_decimal(n)[0]));
    assert(unsigned_digits(spec_decimal(n)) == spec_decimal(n));
}

/// Reads an unsigned number the way `str::parse::<usize>` does.
pub fn parse_usize(s: &str) -> (res: Option<usize>)
    ensures
        res matches Some(n) ==> spec_parse_usize(s@) == Some(n as nat),
        res is None ==> spec_parse_usize(s@) is None,
{
    let chars = chars_of(s);
    let mut start: usize = 0;
    if chars.len() > 0 && chars[0] == '+' {
        start = 1;
    }
    let ghost d = unsigned_digits(s@);
    assert(d =~= chars@.subrange(start as int, chars@.len() as int));
    if start >= chars.len() {
        assert(d.len() == 0);
        return None;
    }
    let mut k: usize = start;
    while k < chars.len()
        invariant
            start <= k <= chars@.len(),
            d == unsigned_digits(s@),
            d == chars@.subrange(start as int, chars@.len() as int),
            forall|i: int| 0 <= i < k - start ==> is_digit(#[trigger] d[i]),
        decreases chars.len() - k,
    {
        if !('0' <= chars[k] && chars[k] <= '9') {
            assert(!is_digit(d[k - start]));
            return None;
        }
        k = k + 1;
    }
    let mut acc: usize = 0;
    let mut k: usize = start;
    assert(d.subrange(0, 0).len() == 0);
    while k < chars.len()
        invariant
            start <= k <= chars@.len(),
            d == unsigned_digits(s@),
            d == chars@.subrange(start as int, chars@.len() as int),
            forall|i: int| 0 <= i < d.len() ==> is_digit(#[trigger] d[i]),
            acc as nat == digits_value(d.subrange(0, k - start)),
        decreases chars.len() - k,
    {
        let ghost pre = d.subrange(0, k - start + 1);
        assert(pre.drop_last() == d.subrange(0, k - start));
        assert(pre.last() == chars@[k as int]);
        assert(is_digit(d[k - start]));
        let dv = (chars[k] as u32 - 48) as usize;
        assert(digits_value(pre) == acc * 10 + dv);
        match acc.checked_mul(10) {
            Some(m) => match m.checked_add(dv) {
                Some(v) => {
                    acc = v;
                },
                None => {
                    proof {
                        assert(digits_value(pre) > usize::MAX);
                        lemma_digits_value_monotone(d, k - start + 1, d.len() as int);
                        assert(d.subrange(0, d.len() as int) == d);
                    }
                    return None;
                },
            },
            None => {
                proof {
                    assert(acc * 10 > usize::MAX);
                    assert(digits_value(pre) > usize::MAX);
                    lemma_digits_value_monotone(d, k - start + 1, d.len() as int);
                    assert(d.subrange(0, d.len() as int) == d);
                }
                return None;
            },
        }
        k = k + 1;
    }
    assert(d.subrange(0, d.len() as int) == d);
    Some(acc)
}

} // verus!

verus! {

/// A line without the carriage return that ends it, if any.
pub open spec fn strip_cr(line: Seq<char>) -> Seq<char> {
    if line.len() > 0 && line.last() == '\r' {
        line.drop_last()
    } else {
        line
    }
}

/// The lines of a text as `str::lines` yields them, read on from lines
/// `done` and the unfinished line `cur`: a line ends at `\n`, which is
/// dropped with a `\r` just before it; a last line without `\n` is kept
/// as it is, and nothing follows a final `\n`.
pub open spec fn lines_from(s: Seq<char>, done: Seq<Seq<char>>, cur: Seq<char>) -> Seq<Seq<char>>
    decreases s.len(),
{
    if s.len() == 0 {
        if cur.len() > 0 {
            done.push(cur)
        } else {
            done
        }
    } else if s[0] == '\n' {
        lines_from(s.drop_first(), done.push(strip_cr(cur)), Seq::empty())
    } else {
        lines_from(s.drop_first(), done, cur.push(s[0]))
    }
}

pub open spec fn spec_lines(s: Seq<char>) -> Seq<Seq<char>> {
    lines_from(s, Seq::empty(), Seq::empty())
}

/// Lines written one after another, each ended by `\n`.
pub open spec fn with_newlines(lines: Seq<Seq<char>>) -> Seq<char>
    decreases lines.len(),
{
    if lines.len() == 0 {
        Seq::empty()
    } else {
        lines[0] + seq!['\n'] + with_newlines(lines.drop_first())
    }
}

proof fn lemma_lines_from_plain(l: Seq<char>, x: Seq<char>, done: Seq<Seq<char>>, cur: Seq<char>)
    requires
        !l.contains('\n'),
    ensures
        lines_from(l + x, done, cur) == lines_from(x, done, cur + l),
    decreases l.len(),
{
    if l.len() == 0 {
        assert(l + x == x);
        assert(cur + l == cur);
    } else {
        assert((l + x)[0] == l[0]);
        assert(l[0] != '\n') by {
            if l[0] == '\n' {
                assert(l.contains('\n'));
            }
        }
        assert((l + x).drop_first() == l.drop_first() + x);
        assert(!l.drop_first().contains('\n')) by {
            if l.drop_first().contains('\n') {
                let k = choose|k: int| 0 <= k < l.drop_first().len() && l.drop_first()[k] == '\n';
                assert(l[k + 1] == '\n');
            }
        }
        lemma_lines_from_plain(l.drop_first(), x, done, cur.push(l[0]));
        assert(cur.push(l[0]) + l.drop_first() == cur + l);
    }
}

proof fn lemma_lines_from_with_newlines(lines: Seq<Seq<char>>, done: Seq<Seq<char>>)
    requires
        forall|i: int| 0 <= i < lines.len() ==> !(#[trigger] lines[i]).contains('\n') && !(lines[i].len() > 0
            && lines[i].last() == '\r'),
    ensures
        lines_from(with_newlines(lines), done, Seq::empty()) == done + lines,
    decreases lines.len(),
{
    if lines.len() == 0 {
        assert(done + lines == done);
    } else {
        let l = lines[0];
        let rest = lines.drop_first();
        let x = seq!['\n'] + with_newlines(rest);
        assert(with_newlines(lines) == l + x);
        lemma_lines_from_plain(l, x, done, Seq::empty());
        assert(Seq::<char>::empty() + l == l);
        assert(x[0] == '\n');
        assert(x.drop_first() == with_newlines(rest));
        assert(strip_cr(l) == l);
        assert forall|i: int| 0 <= i < rest.len() implies !(#[trigger] rest[i]).contains('\n') && !(rest[i].len() > 0
            && rest[i].last() == '\r') by {
            assert(rest[i] == lines[i + 1]);
        }
        lemma_lines_from_with_newlines(rest, done.push(l));
        assert(done.push(l) + rest =~= done + lines);
    }
}

/// Lines without `\n` that do not end in `\r`, each written with a
/// `\n` after it, are read back as the same lines.
pub proof fn lemma_lines_round_trip(lines: Seq<Seq<char>>)
    requires
        forall|i: int| 0 <= i < lines.len() ==> !(#[trigger] lines[i]).contains('\n') && !(lines[i].len() > 0
            && lines[i].last() == '\r'),
    ensures
        spec_lines(with_newlines(lines)) == lines,
{
    lemma_lines_from_with_newlines(lines, Seq::empty());
    assert(Seq::<Seq<char>>::empty() + lines == lines);
}

/// Splits a text into its lines, as `str::lines` does.
pub fn split_lines(text: &str) -> (res: Vec<String>)
    ensures
        views(res@) == spec_lines(text@),
{
    let chars = chars_of(text);
    let n = chars.len();
    let mut done: Vec<String> = Vec::new();
    let mut cur: Vec<char> = Vec::new();
    let mut i: usize = 0;
    assert(chars@.subrange(0, n as int) == chars@);
    assert(views(done@) =~= Seq::<Seq<char>>::empty());
    assert(cur@ =~= Seq::<char>::empty());
    while i < n
        invariant
            n == chars@.len(),
            chars@ == text@,
            i <= n,
            spec_lines(text@) == lines_from(chars@.subrange(i as int, n as int), views(done@), cur@),
        decreases n - i,
    {
        let ghost rest = chars@.subrange(i as int, n as int);
        assert(rest[0] == chars@[i as int]);
        assert(rest.drop_first() == chars@.subrange(i + 1, n as int));
        if chars[i] == '\n' {
            let ghost before = views(done@);
            let ghost line = strip_cr(cur@);
            let len = cur.len();
            if len > 0 && cur[len - 1] == '\r' {
                cur.pop();
            }
            assert(cur@ == line);
            let s = string_from_chars(&cur);
            done.push(s);
            assert(views(done@) =~= before.push(line));
            cur = Vec::new();
            assert(cur@ =~= Seq::<char>::empty());
        } else {
            cur.push(chars[i]);
        }
        i = i + 1;
    }
    assert(chars@.subrange(n as int, n as int).len() == 0);
    if cur.len() > 0 {
        let ghost before = views(done@);
        let s = string_from_chars(&cur);
        done.push(s);
        assert(views(done@) =~= before.push(cur@));
    }
    done
}

} // verus!

verus! {

/// The strings joined with a separator between each two of them.
pub open spec fn spec_join(parts: Seq<Seq<char>>, sep: Seq<char>) -> Seq<char>
    decreases parts.len(),
{
    if parts.len() == 0 {
        Seq::empty()
    } else if parts.len() == 1 {
        parts[0]
    } else {
        spec_join(parts.drop_last(), sep) + sep + parts.last()
    }
}

/// Joins strings with a separator, as `[String]::join` does.
pub fn join(parts: &[String], sep: &str) -> (res: String)
    ensures
        res@ == spec_join(views(parts@), sep@),
{
    let mut res = String::new();
    let ghost p = views(parts@);
    let mut i: usize = 0;
    assert(p.subrange(0, 0) =~= Seq::<Seq<char>>::empty());
    while i < parts.len()
        invariant
            i <= parts@.len(),
            p == views(parts@),
            res@ == spec_join(p.subrange(0, i as int), sep@),
        decreases parts.len() - i,
    {
        let ghost sub = p.subrange(0, i + 1);
        assert(sub.drop_last() == p.subrange(0, i as int));
        assert(sub.last() == parts@[i as int]@);
        if i > 0 {
            res.append(sep);
        } else {
            assert(res@ =~= Seq::<char>::empty());
        }
        res.append(parts[i].as_str());
        if i == 0 {
            assert(res@ =~= sub[0]);
        }
        i = i + 1;
    }
    assert(p.subrange(0, p.len() as int) == p);
    res
}

} // verus!
