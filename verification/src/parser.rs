use vstd::prelude::*;
use crate::text::{views, chars_of, string_from_chars, spec_join};

verus! {

/// The tokenizer's state between two characters: the words finished so
/// far, the word being built, the open quote (if any), whether an
/// unquoted `|` has been read, and whether the word being built has begun
/// with a quote (so that it counts even when it is empty).
pub type ParseState = (Seq<Seq<char>>, Seq<char>, Option<char>, bool, bool);

pub open spec fn is_quote(c: char) -> bool {
    c == '\'' || c == '"'
}

pub open spec fn is_blank(c: char) -> bool {
    c == ' ' || c == '\t'
}

/// The characters that a backslash escapes inside double quotes.
pub open spec fn escapable_in_double_quotes(c: char) -> bool {
    c == '$' || c == '`' || c == '"' || c == '\\' || c == '\n'
}

/// Feeds the characters `s` to the tokenizer in state `st`, following
/// the POSIX shell's quoting rules.
///
/// Inside single quotes everything but the closing quote is literal.
/// Inside double quotes a backslash escapes `$`, a backquote, `"`, `\` and
/// a newline, and stands for itself before any other character. Outside
/// quotes a quote character opens a quote (and begins a word), a blank
/// ends the current word, and a backslash takes the next character
/// literally. A backslash before a newline removes both. Every other
/// character joins the current word; an unquoted `|` marks the line as a
/// pipeline.
pub open spec fn parse_from(s: Seq<char>, st: ParseState) -> ParseState
    decreases s.len(),
{
    if s.len() == 0 {
        st
    } else {
        let (args, cur, quote, pipe, started) = st;
        let c = s[0];
        let rest = s.drop_first();
        if quote == Some(c) {
            parse_from(rest, (args, cur, None, pipe, started))
        } else if quote is None && is_quote(c) {
            parse_from(rest, (args, cur, Some(c), pipe, true))
        } else if quote is None && is_blank(c) {
            if cur.len() > 0 || started {
                parse_from(rest, (args.push(cur), Seq::empty(), quote, pipe, false))
            } else {
                parse_from(rest, st)
            }
        } else if c == '\\' && (quote is None || (quote == Some('"') && rest.len() > 0
            && escapable_in_double_quotes(rest[0]))) {
            if rest.len() == 0 {
                st
            } else if rest[0] == '\n' {
                parse_from(rest.drop_first(), st)
            } else {
                parse_from(rest.drop_first(), (args, cur.push(rest[0]), quote, pipe, started))
            }
        } else {
            parse_from(rest, (args, cur.push(c), quote, pipe || (quote is None && c == '|'), started))
        }
    }
}

pub open spec fn initial_state() -> ParseState {
    (Seq::empty(), Seq::empty(), None, false, false)
}

/// The words of a command line and whether it holds an unquoted pipe: the
/// tokenizer run over the whole line, with the last word closed.
pub open spec fn spec_parse_args(s: Seq<char>) -> (Seq<Seq<char>>, bool) {
    let (args, cur, _quote, pipe, started) = parse_from(s, initial_state());
    (if cur.len() > 0 || started { args.push(cur) } else { args }, pipe)
}

/// Characters that change how the tokenizer reads what follows them.
pub open spec fn is_special(c: char) -> bool {
    is_quote(c) || c == '\\'
}

proof fn lemma_parse_from_concat(a: Seq<char>, b: Seq<char>, st: ParseState)
    requires
        forall|i: int| 0 <= i < a.len() ==> a[i] != '\\',
    ensures
        parse_from(a + b, st) == parse_from(b, parse_from(a, st)),
    decreases a.len(),
{
    if a.len() > 0 {
        let (args, cur, quote, pipe, started) = st;
        let c = a[0];
        assert((a + b)[0] == c);
        assert((a + b).drop_first() == a.drop_first() + b);
        let rest = a.drop_first();
        if quote == Some(c) {
            lemma_parse_from_concat(rest, b, (args, cur, None, pipe, started));
        } else if quote is None && is_quote(c) {
            lemma_parse_from_concat(rest, b, (args, cur, Some(c), pipe, true));
        } else if quote is None && is_blank(c) {
            if cur.len() > 0 || started {
                lemma_parse_from_concat(rest, b, (args.push(cur), Seq::empty(), quote, pipe, false));
            } else {
                lemma_parse_from_concat(rest, b, st);
            }
        } else {
            lemma_parse_from_concat(rest, b, (args, cur.push(c), quote, pipe || (quote is None && c == '|'), started));
        }
    } else {
        assert(a + b == b);
    }
}

proof fn lemma_parse_from_unquoted(a: Seq<char>, st: ParseState)
    requires
        forall|i: int| 0 <= i < a.len() ==> !is_special(#[trigger] a[i]),
        st.2 is None,
        !st.4,
    ensures
        parse_from(a, st).2 is None,
        !parse_from(a, st).4,
    decreases a.len(),
{
    if a.len() > 0 {
        let (args, cur, quote, pipe, started) = st;
        let c = a[0];
        let rest = a.drop_first();
        assert(!is_special(a[0]));
        assert forall|i: int| 0 <= i < rest.len() implies !is_special(#[trigger] rest[i]) by {
            assert(rest[i] == a[i + 1]);
        }
        if is_blank(c) {
            if cur.len() > 0 {
                lemma_parse_from_unquoted(rest, (args.push(cur), Seq::empty(), quote, pipe, false));
            } else {
                lemma_parse_from_unquoted(rest, st);
            }
        } else {
            lemma_parse_from_unquoted(rest, (args, cur.push(c), quote, pipe || c == '|', started));
        }
    }
}

proof fn lemma_parse_from_prefix(b: Seq<char>, pre: Seq<Seq<char>>, st: ParseState)
    ensures
        ({
            let r = parse_from(b, (st.0, st.1, st.2, false, st.4));
            parse_from(b, (pre + st.0, st.1, st.2, st.3, st.4)) == (pre + r.0, r.1, r.2, st.3 || r.3, r.4)
        }),
    decreases b.len(),
{
    let e = Seq::<Seq<char>>::empty();
    if b.len() > 0 {
        let (args, cur, quote, pipe, started) = st;
        let c = b[0];
        let rest = b.drop_first();
        assert(e + args == args);
        if quote == Some(c) {
            lemma_parse_from_prefix(rest, pre, (args, cur, None, pipe, started));
            lemma_parse_from_prefix(rest, e, (args, cur, None, false, started));
        } else if quote is None && is_quote(c) {
            lemma_parse_from_prefix(rest, pre, (args, cur, Some(c), pipe, true));
            lemma_parse_from_prefix(rest, e, (args, cur, Some(c), false, true));
        } else if quote is None && is_blank(c) {
            if cur.len() > 0 || started {
                assert((pre + args).push(cur) == pre + args.push(cur));
                assert(e + args.push(cur) == args.push(cur));
                lemma_parse_from_prefix(rest, pre, (args.push(cur), Seq::empty(), quote, pipe, false));
                lemma_parse_from_prefix(rest, e, (args.push(cur), Seq::empty(), quote, false, false));
            } else {
                lemma_parse_from_prefix(rest, pre, st);
                lemma_parse_from_prefix(rest, e, (args, cur, quote, false, started));
            }
        } else if c == '\\' && (quote is None || (quote == Some('"') && rest.len() > 0
            && escapable_in_double_quotes(rest[0]))) {
            if rest.len() == 0 {
            } else if rest[0] == '\n' {
                lemma_parse_from_prefix(rest.drop_first(), pre, st);
                lemma_parse_from_prefix(rest.drop_first(), e, (args, cur, quote, false, started));
            } else {
                lemma_parse_from_prefix(rest.drop_first(), pre, (args, cur.push(rest[0]), quote, pipe, started));
                lemma_parse_from_prefix(rest.drop_first(), e, (args, cur.push(rest[0]), quote, false, started));
            }
        } else {
            let p2 = quote is None && c == '|';
            lemma_parse_from_prefix(rest, pre, (args, cur.push(c), quote, pipe || p2, started));
            lemma_parse_from_prefix(rest, e, (args, cur.push(c), quote, p2, started));
            lemma_parse_from_prefix(rest, e, (args, cur.push(c), quote, false, started));
        }
    }
}

/// A blank (a space or a tab) outside quotes splits a line into two
/// halves that are read independently: when the first half holds no
/// quote or backslash, the words of the whole line are the words of the
/// first half followed by those of the second, and the line is a
/// pipeline when either half is.
pub proof fn lemma_blank_separates_words(a: Seq<char>, blank: char, b: Seq<char>)
    requires
        is_blank(blank),
        forall|i: int| 0 <= i < a.len() ==> !is_special(#[trigger] a[i]),
    ensures
        spec_parse_args(a + seq![blank] + b) == (
            spec_parse_args(a).0 + spec_parse_args(b).0,
            spec_parse_args(a).1 || spec_parse_args(b).1,
        ),
{
    let sp: Seq<char> = seq![blank];
    assert forall|i: int| 0 <= i < a.len() implies a[i] != '\\' by {
        assert(!is_special(a[i]));
    }
    assert(a + sp + b == a + (sp + b));
    lemma_parse_from_concat(a, sp + b, initial_state());
    lemma_parse_from_unquoted(a, initial_state());
    let (args_a, cur_a, q_a, p_a, s_a) = parse_from(a, initial_state());
    let fa = spec_parse_args(a).0;
    assert((sp + b)[0] == blank);
    assert((sp + b).drop_first() == b);
    if cur_a.len() == 0 {
        assert(cur_a =~= Seq::<char>::empty());
    }
    assert(parse_from(sp + b, (args_a, cur_a, q_a, p_a, s_a)) == parse_from(b, (fa, Seq::empty(), None, p_a, false)));
    lemma_parse_from_prefix(b, fa, (Seq::empty(), Seq::empty(), None, p_a, false));
    assert(fa + Seq::<Seq<char>>::empty() == fa);
    let r = parse_from(b, initial_state());
    if r.1.len() > 0 || r.4 {
        assert((fa + r.0).push(r.1) == fa + r.0.push(r.1));
    }
}

/// A character that stands for itself inside the quote `q`: anything but
/// the closing quote, and inside double quotes anything but a backslash.
pub open spec fn literal_in_quote(q: char, c: char) -> bool {
    c != q && (q == '"' ==> c != '\\')
}

proof fn lemma_parse_inside_quotes(q: char, w: Seq<char>, rest: Seq<char>, st: ParseState)
    requires
        is_quote(q),
        st.2 == Some(q),
        forall|i: int| 0 <= i < w.len() ==> literal_in_quote(q, #[trigger] w[i]),
    ensures
        parse_from(w + rest, st) == parse_from(rest, (st.0, st.1 + w, st.2, st.3, st.4)),
    decreases w.len(),
{
    let (args, cur, quote, pipe, started) = st;
    if w.len() == 0 {
        assert(w + rest == rest);
        assert(cur + w == cur);
    } else {
        let c = w[0];
        assert(literal_in_quote(q, w[0]));
        assert((w + rest)[0] == c);
        assert((w + rest).drop_first() == w.drop_first() + rest);
        let w2 = w.drop_first();
        assert forall|i: int| 0 <= i < w2.len() implies literal_in_quote(q, #[trigger] w2[i]) by {
            assert(w2[i] == w[i + 1]);
        }
        lemma_parse_inside_quotes(q, w2, rest, (args, cur.push(c), quote, pipe, started));
        assert(cur.push(c) + w2 == cur + w);
    }
}

/// Quotes keep what they enclose as it is: a text written between single
/// quotes (holding no single quote) or between double quotes (holding no
/// double quote and no backslash) is read as one word, even when it is
/// empty, with its blanks, the other kind of quote and any `|` (which
/// does not make the line a pipeline).
pub proof fn lemma_quotes_keep_text(q: char, w: Seq<char>)
    requires
        is_quote(q),
        forall|i: int| 0 <= i < w.len() ==> literal_in_quote(q, #[trigger] w[i]),
    ensures
        spec_parse_args(seq![q] + w + seq![q]) == (seq![w], false),
{
    let qs: Seq<char> = seq![q];
    let line = qs + w + qs;
    assert(line[0] == q);
    assert(line.drop_first() == w + qs);
    let st1: ParseState = (Seq::empty(), Seq::empty(), Some(q), false, true);
    assert(parse_from(line, initial_state()) == parse_from(w + qs, st1));
    lemma_parse_inside_quotes(q, w, qs, st1);
    assert(Seq::<char>::empty() + w == w);
    assert(qs[0] == q);
    assert(qs.drop_first().len() == 0);
    let st2: ParseState = (Seq::empty(), w, Some(q), false, true);
    assert(parse_from(qs, st2) == parse_from(qs.drop_first(), (Seq::empty(), w, None, false, true)));
    assert(parse_from(qs, st2) == (Seq::<Seq<char>>::empty(), w, None::<char>, false, true));
    assert(Seq::<Seq<char>>::empty().push(w) == seq![w]);
}

/// A backslash outside quotes takes the next character literally, even
/// a blank, a quote, a backslash or a `|` (which then does not mark a
/// pipeline); before a newline it removes both.
pub proof fn lemma_backslash_escapes(c: char)
    ensures
        c != '\n' ==> spec_parse_args(seq!['\\', c]) == (seq![seq![c]], false),
        c == '\n' ==> spec_parse_args(seq!['\\', c]) == (Seq::<Seq<char>>::empty(), false),
{
    let line: Seq<char> = seq!['\\', c];
    assert(line[0] == '\\');
    assert(line.drop_first()[0] == c);
    assert(line.drop_first().drop_first().len() == 0);
    if c != '\n' {
        assert(Seq::<char>::empty().push(c) == seq![c]);
        let st: ParseState = (Seq::empty(), seq![c], None, false, false);
        assert(parse_from(line.drop_first().drop_first(), st) == st);
        assert(parse_from(line, initial_state()) == st);
        assert(Seq::<Seq<char>>::empty().push(seq![c]) == seq![seq![c]]);
    } else {
        assert(parse_from(line.drop_first().drop_first(), initial_state()) == initial_state());
    }
}

/// Inside double quotes a backslash stands for itself before a character
/// it does not escape: `"\c"` is the word `\c`.
pub proof fn lemma_backslash_kept_in_double_quotes(c: char)
    requires
        !escapable_in_double_quotes(c),
    ensures
        spec_parse_args(seq!['"', '\\', c, '"']) == (seq![seq!['\\', c]], false),
{
    let line: Seq<char> = seq!['"', '\\', c, '"'];
    let w: Seq<char> = seq!['\\', c];
    let q: Seq<char> = seq!['"'];
    assert(line == q + w + q);
    let st1: ParseState = (Seq::empty(), Seq::empty(), Some('"'), false, true);
    assert(line.drop_first() == w + q);
    assert(parse_from(line, initial_state()) == parse_from(w + q, st1));
    let st2: ParseState = (Seq::empty(), seq!['\\'], Some('"'), false, true);
    assert((w + q)[0] == '\\');
    assert((w + q).drop_first() == seq![c, '"']);
    assert(Seq::<char>::empty().push('\\') == seq!['\\']);
    assert(parse_from(w + q, st1) == parse_from(seq![c, '"'], st2));
    let st3: ParseState = (Seq::empty(), w, Some('"'), false, true);
    assert(seq!['\\'].push(c) == w);
    assert(seq![c, '"'].drop_first() == q);
    assert(parse_from(seq![c, '"'], st2) == parse_from(q, st3));
    assert(q.drop_first().len() == 0);
    assert(parse_from(q, st3) == parse_from(q.drop_first(), (Seq::empty(), w, None, false, true)));
    assert(Seq::<Seq<char>>::empty().push(w) == seq![w]);
}

/// Inside double quotes a backslash escapes `$`, a backquote, `"` and
/// `\`: `"\c"` is the word `c`. Before a newline it removes both, which
/// leaves an empty quoted word.
pub proof fn lemma_backslash_escapes_in_double_quotes(c: char)
    requires
        escapable_in_double_quotes(c),
    ensures
        c != '\n' ==> spec_parse_args(seq!['"', '\\', c, '"']) == (seq![seq![c]], false),
        c == '\n' ==> spec_parse_args(seq!['"', '\\', c, '"']) == (seq![Seq::<char>::empty()], false),
{
    let line: Seq<char> = seq!['"', '\\', c, '"'];
    let q: Seq<char> = seq!['"'];
    let st1: ParseState = (Seq::empty(), Seq::empty(), Some('"'), false, true);
    assert(line[0] == '"');
    assert(line.drop_first() == seq!['\\', c, '"']);
    assert(parse_from(line, initial_state()) == parse_from(seq!['\\', c, '"'], st1));
    let r: Seq<char> = seq!['\\', c, '"'];
    assert(r[0] == '\\');
    assert(r.drop_first() == seq![c, '"']);
    assert(r.drop_first()[0] == c);
    assert(r.drop_first().drop_first() == q);
    assert(q[0] == '"');
    assert(q.drop_first().len() == 0);
    if c != '\n' {
        let st2: ParseState = (Seq::empty(), seq![c], Some('"'), false, true);
        assert(Seq::<char>::empty().push(c) == seq![c]);
        assert(parse_from(r, st1) == parse_from(q, st2));
        assert(parse_from(q, st2) == parse_from(q.drop_first(), (Seq::empty(), seq![c], None, false, true)));
        assert(Seq::<Seq<char>>::empty().push(seq![c]) == seq![seq![c]]);
    } else {
        assert(parse_from(r, st1) == parse_from(q, st1));
        assert(parse_from(q, st1) == parse_from(q.drop_first(), (Seq::empty(), Seq::empty(), None, false, true)));
        assert(Seq::<Seq<char>>::empty().push(Seq::<char>::empty()) == seq![Seq::<char>::empty()]);
    }
}

/// A plain word: nonempty, with no blank, quote, backslash or `|`.
pub open spec fn is_plain_word(w: Seq<char>) -> bool {
    w.len() > 0 && forall|i: int| 0 <= i < w.len() ==> !is_special(#[trigger] w[i]) && !is_blank(w[i]) && w[i] != '|'
}

proof fn lemma_parse_plain_chars(w: Seq<char>, st: ParseState)
    requires
        st.2 is None,
        forall|i: int| 0 <= i < w.len() ==> !is_special(#[trigger] w[i]) && !is_blank(w[i]) && w[i] != '|',
    ensures
        parse_from(w, st) == (st.0, st.1 + w, st.2, st.3, st.4),
    decreases w.len(),
{
    if w.len() == 0 {
        assert(st.1 + w == st.1);
    } else {
        let (args, cur, quote, pipe, started) = st;
        assert(!is_special(w[0]));
        let rest = w.drop_first();
        assert forall|i: int| 0 <= i < rest.len() implies !is_special(#[trigger] rest[i]) && !is_blank(rest[i]) && rest[i] != '|' by {
            assert(rest[i] == w[i + 1]);
            assert(!is_special(w[i + 1]));
        }
        lemma_parse_plain_chars(rest, (args, cur.push(w[0]), quote, pipe, started));
        assert(cur.push(w[0]) + rest == cur + w);
    }
}

proof fn lemma_join_plain_has_no_special(ws: Seq<Seq<char>>)
    requires
        forall|k: int| 0 <= k < ws.len() ==> is_plain_word(#[trigger] ws[k]),
    ensures
        forall|i: int| 0 <= i < spec_join(ws, seq![' ']).len() ==> !is_special(#[trigger] spec_join(ws, seq![' '])[i]),
    decreases ws.len(),
{
    if ws.len() == 1 {
        assert(is_plain_word(ws[0]));
        assert forall|i: int| 0 <= i < ws[0].len() implies !is_special(#[trigger] ws[0][i]) by {}
    } else if ws.len() > 1 {
        let init = ws.drop_last();
        assert forall|k: int| 0 <= k < init.len() implies is_plain_word(#[trigger] init[k]) by {
            assert(init[k] == ws[k]);
        }
        lemma_join_plain_has_no_special(init);
        let a = spec_join(init, seq![' ']);
        let last = ws.last();
        assert(is_plain_word(ws[ws.len() - 1]));
        let j = spec_join(ws, seq![' ']);
        assert(j == a + seq![' '] + last);
        assert forall|i: int| 0 <= i < j.len() implies !is_special(#[trigger] j[i]) by {
            if i < a.len() {
                assert(j[i] == a[i]);
            } else if i == a.len() {
                assert(j[i] == ' ');
            } else {
                assert(j[i] == last[i - a.len() - 1]);
                assert(!is_special(last[i - a.len() - 1]));
            }
        }
    }
}

/// Plain words joined with single spaces are read back as the same
/// words, and the line is no pipeline.
pub proof fn lemma_plain_words_round_trip(ws: Seq<Seq<char>>)
    requires
        ws.len() > 0,
        forall|k: int| 0 <= k < ws.len() ==> is_plain_word(#[trigger] ws[k]),
    ensures
        spec_parse_args(spec_join(ws, seq![' '])) == (ws, false),
    decreases ws.len(),
{
    let last = ws.last();
    assert(is_plain_word(ws[ws.len() - 1]));
    assert forall|i: int| 0 <= i < last.len() implies !is_special(#[trigger] last[i]) && !is_blank(last[i]) && last[i] != '|' by {
        assert(is_plain_word(ws[ws.len() - 1]));
    }
    lemma_parse_plain_chars(last, initial_state());
    assert(Seq::<char>::empty() + last == last);
    assert(spec_parse_args(last) == (seq![last], false)) by {
        assert(Seq::<Seq<char>>::empty().push(last) == seq![last]);
    }
    if ws.len() == 1 {
        assert(ws =~= seq![last]);
    } else {
        let init = ws.drop_last();
        assert forall|k: int| 0 <= k < init.len() implies is_plain_word(#[trigger] init[k]) by {
            assert(init[k] == ws[k]);
        }
        lemma_plain_words_round_trip(init);
        lemma_join_plain_has_no_special(init);
        lemma_blank_separates_words(spec_join(init, seq![' ']), ' ', last);
        assert(init + seq![last] =~= ws);
    }
}

proof fn lemma_unquoted_pipe_flag(s: Seq<char>, st: ParseState)
    requires
        st.2 is None,
        !st.4,
        forall|i: int| 0 <= i < s.len() ==> !is_special(#[trigger] s[i]),
    ensures
        parse_from(s, st).3 == (st.3 || s.contains('|')),
    decreases s.len(),
{
    if s.len() > 0 {
        let (args, cur, quote, pipe, started) = st;
        let c = s[0];
        let rest = s.drop_first();
        assert(!is_special(s[0]));
        assert forall|i: int| 0 <= i < rest.len() implies !is_special(#[trigger] rest[i]) by {
            assert(rest[i] == s[i + 1]);
        }
        assert(s.contains('|') == (c == '|' || rest.contains('|'))) by {
            if s.contains('|') {
                let k = choose|k: int| 0 <= k < s.len() && s[k] == '|';
                if k > 0 {
                    assert(rest[k - 1] == '|');
                }
            }
            if rest.contains('|') {
                let k = choose|k: int| 0 <= k < rest.len() && rest[k] == '|';
                assert(s[k + 1] == '|');
            }
        }
        if is_blank(c) {
            if cur.len() > 0 {
                lemma_unquoted_pipe_flag(rest, (args.push(cur), Seq::empty(), quote, pipe, false));
            } else {
                lemma_unquoted_pipe_flag(rest, st);
            }
        } else {
            lemma_unquoted_pipe_flag(rest, (args, cur.push(c), quote, pipe || c == '|', started));
        }
    } else {
        assert(!s.contains('|'));
    }
}

/// On a line without quotes or backslashes, every `|` is unquoted and
/// unescaped, and the line is a pipeline exactly when it holds one.
pub proof fn lemma_pipe_flag_on_unquoted_line(s: Seq<char>)
    requires
        forall|i: int| 0 <= i < s.len() ==> !is_special(#[trigger] s[i]),
    ensures
        spec_parse_args(s).1 == s.contains('|'),
{
    lemma_unquoted_pipe_flag(s, initial_state());
}

/// A quote opened in the middle of a word continues that word: plain
/// text followed directly by a quoted part is read as one word, the
/// plain text and the quoted text run together.
pub proof fn lemma_quote_continues_word(u: Seq<char>, q: char, w: Seq<char>)
    requires
        is_plain_word(u),
        is_quote(q),
        forall|i: int| 0 <= i < w.len() ==> literal_in_quote(q, #[trigger] w[i]),
    ensures
        spec_parse_args(u + seq![q] + w + seq![q]) == (seq![u + w], false),
{
    let qs: Seq<char> = seq![q];
    let line = u + qs + w + qs;
    assert forall|i: int| 0 <= i < u.len() implies !is_special(#[trigger] u[i]) && !is_blank(u[i]) && u[i] != '|' by {
        assert(is_plain_word(u));
    }
    assert forall|i: int| 0 <= i < u.len() implies u[i] != '\\' by {
        assert(!is_special(u[i]));
    }
    assert(line == u + (qs + w + qs));
    lemma_parse_from_concat(u, qs + w + qs, initial_state());
    lemma_parse_plain_chars(u, initial_state());
    assert(Seq::<char>::empty() + u == u);
    let st0: ParseState = (Seq::empty(), u, None, false, false);
    let rest = qs + w + qs;
    assert(rest[0] == q);
    assert(rest.drop_first() == w + qs);
    let st1: ParseState = (Seq::empty(), u, Some(q), false, true);
    assert(parse_from(rest, st0) == parse_from(w + qs, st1));
    lemma_parse_inside_quotes(q, w, qs, st1);
    let st2: ParseState = (Seq::empty(), u + w, Some(q), false, true);
    assert(qs[0] == q);
    assert(qs.drop_first().len() == 0);
    assert(parse_from(qs, st2) == parse_from(qs.drop_first(), (Seq::empty(), u + w, None, false, true)));
    assert(Seq::<Seq<char>>::empty().push(u + w) == seq![u + w]);
}

/// Splits a command line into words, following the POSIX shell's
/// quoting rules, and reports whether it holds an unquoted `|`.
pub fn parse_args(input: &str) -> (res: (Vec<String>, bool))
    ensures
        (views(res.0@), res.1) == spec_parse_args(input@),
{
    let chars = chars_of(input);
    let n = chars.len();
    let mut is_pipeline: bool = false;
    let mut args: Vec<String> = Vec::new();
    let mut current: Vec<char> = Vec::new();
    let mut quote_char: Option<char> = None;
    let mut started: bool = false;
    let mut i: usize = 0;
    let ghost s = input@;
    assert(s.subrange(0, s.len() as int) == s);
    proof {
        assert(views(args@) =~= Seq::<Seq<char>>::empty());
        assert(current@ =~= Seq::<char>::empty());
    }
    while i < n
        invariant
            n == chars@.len(),
            chars@ == s,
            i <= n,
            parse_from(s, initial_state()) == parse_from(
                s.subrange(i as int, n as int),
                (views(args@), current@, quote_char, is_pipeline, started),
            ),
        decreases n - i,
    {
        let c = chars[i];
        let ghost rest = s.subrange(i + 1, n as int);
        assert(s.subrange(i as int, n as int).drop_first() == rest);
        assert(s.subrange(i as int, n as int)[0] == c);
        if i + 1 < n {
            assert(rest[0] == chars@[i + 1]);
            assert(rest.drop_first() == s.subrange(i + 2, n as int));
        } else {
            assert(rest.len() == 0);
        }
        if quote_char == Some(c) {
            quote_char = None;
            i = i + 1;
        } else if quote_char.is_none() && (c == '\'' || c == '"') {
            quote_char = Some(c);
            started = true;
            i = i + 1;
        } else if quote_char.is_none() && (c == ' ' || c == '\t') {
            if current.len() > 0 || started {
                let ghost before = views(args@);
                let word = string_from_chars(&current);
                args.push(word);
                assert(views(args@) == before.push(current@));
                current = Vec::new();
                assert(current@ =~= Seq::<char>::empty());
                started = false;
            }
            i = i + 1;
        } else if c == '\\' && (quote_char.is_none() || (quote_char == Some('"') && i + 1 < n && (
        chars[i + 1] == '$' || chars[i + 1] == '`' || chars[i + 1] == '"' || chars[i + 1] == '\\'
            || chars[i + 1] == '\n'))) {
            if i + 1 >= n {
                assert(s.subrange(n as int, n as int).len() == 0);
                i = n;
            } else if chars[i + 1] == '\n' {
                i = i + 2;
            } else {
                current.push(chars[i + 1]);
                i = i + 2;
            }
        } else {
            if c == '|' && quote_char.is_none() {
                is_pipeline = true;
            }
            current.push(c);
            i = i + 1;
        }
    }
    assert(s.subrange(n as int, n as int).len() == 0);
    if current.len() > 0 || started {
        let ghost before = views(args@);
        let word = string_from_chars(&current);
        args.push(word);
        assert(views(args@) == before.push(current@));
    }
    (args, is_pipeline)
}

} // verus!
