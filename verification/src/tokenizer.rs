//! Cutting a line into tokens.

use vstd::prelude::*;
use crate::text::strs_view;

verus! {

/// Where a scan of a line stands: whether it is inside quotes, the token it
/// is reading, and the tokens it has finished.
pub struct LexState {
    pub quoted: bool,
    pub current: Seq<char>,
    pub done: Seq<Seq<char>>,
}

/// The finished tokens with the one being read added, unless that one is
/// empty.
pub open spec fn close_token(done: Seq<Seq<char>>, current: Seq<char>) -> Seq<Seq<char>> {
    if current.len() > 0 {
        done.push(current)
    } else {
        done
    }
}

/// Whether `c`, met inside quotes or outside them, ends a token.
pub open spec fn is_delimiter(quoted: bool, c: char) -> bool {
    c == '"' || (c == ' ' && !quoted)
}

/// The scan after one more character. A quote ends the token and turns the
/// quoting on or off; a space ends the token outside quotes; any other
/// character goes into the token.
pub open spec fn step(st: LexState, c: char) -> LexState {
    if is_delimiter(st.quoted, c) {
        LexState {
            quoted: if c == '"' {
                !st.quoted
            } else {
                st.quoted
            },
            current: Seq::empty(),
            done: close_token(st.done, st.current),
        }
    } else {
        LexState { quoted: st.quoted, current: st.current.push(c), done: st.done }
    }
}

/// The scan after the characters of `s`, begun outside quotes with nothing
/// read.
pub open spec fn lex(s: Seq<char>) -> LexState
    decreases s.len(),
{
    if s.len() == 0 {
        LexState { quoted: false, current: Seq::empty(), done: Seq::empty() }
    } else {
        step(lex(s.drop_last()), s.last())
    }
}

/// The tokens of a line. A quote that is never closed counts to the end of
/// the line.
pub open spec fn tokens(s: Seq<char>) -> Seq<Seq<char>> {
    close_token(lex(s).done, lex(s).current)
}

/// Cuts a line into its tokens: the pieces between spaces, where a pair of
/// quotes keeps the spaces between them. The quotes are not part of a token,
/// and no token is empty.
pub fn split_shell<'a>(txt: &'a str) -> (r: Vec<&'a str>)
    ensures
        strs_view(r@) == tokens(txt@),
{
    let n = txt.unicode_len();
    let mut out: Vec<&'a str> = Vec::new();
    let mut quoted = false;
    let mut start: usize = 0;
    let mut i: usize = 0;
    assert(txt@.take(0) =~= Seq::empty());
    assert(strs_view(out@) =~= Seq::empty());
    assert(txt@.subrange(0, 0) =~= Seq::empty());
    for c in it: txt.chars()
        invariant
            n == txt@.len(),
            it.seq() == txt@,
            i == it.index(),
            start <= i <= n,
            lex(txt@.take(i as int)) == (LexState {
                quoted: quoted,
                current: txt@.subrange(start as int, i as int),
                done: strs_view(out@),
            }),
    {
        let ghost before = lex(txt@.take(i as int));
        proof {
            assert(c == txt@[i as int]);
            assert(txt@.take(i + 1).drop_last() =~= txt@.take(i as int));
            assert(txt@.take(i + 1).last() == c);
        }
        if c == '"' || (c == ' ' && !quoted) {
            if start < i {
                let token = txt.substring_char(start, i);
                let ghost done = strs_view(out@);
                out.push(token);
                assert(strs_view(out@) =~= done.push(token@));
            }
            if c == '"' {
                quoted = !quoted;
            }
            start = i + 1;
            assert(txt@.subrange(start as int, i + 1) =~= Seq::empty());
        } else {
            assert(txt@.subrange(start as int, i + 1) =~= before.current.push(c));
        }
        i += 1;
    }
    assert(txt@.take(i as int) =~= txt@);
    if start < i {
        let token = txt.substring_char(start, i);
        let ghost done = strs_view(out@);
        out.push(token);
        assert(strs_view(out@) =~= done.push(token@));
    }
    out
}

/// Whether `token` could have been cut from a line: it is not empty and
/// holds no quote.
pub open spec fn is_token(token: Seq<char>) -> bool {
    token.len() > 0 && !token.contains('"')
}

/// What holds of a scan at every point: the finished tokens are tokens, and
/// the one being read holds no quote, nor a space unless inside quotes.
pub open spec fn lex_inv(st: LexState) -> bool {
    &&& forall|k: int| 0 <= k < st.done.len() ==> is_token(#[trigger] st.done[k])
    &&& !st.current.contains('"')
    &&& !st.quoted ==> !st.current.contains(' ')
}

/// A step of the scan keeps `lex_inv`.
proof fn lemma_step_inv(st: LexState, c: char)
    requires
        lex_inv(st),
    ensures
        lex_inv(step(st, c)),
{
    let next = step(st, c);
    if is_delimiter(st.quoted, c) {
        assert forall|k: int| 0 <= k < next.done.len() implies is_token(#[trigger] next.done[k]) by {
            if k < st.done.len() {
                assert(next.done[k] == st.done[k]);
            }
        }
    } else {
        assert forall|i: int| 0 <= i < next.current.len() implies next.current[i] != '"' by {
            if i < st.current.len() {
                assert(st.current[i] == next.current[i]);
                assert(st.current.contains(st.current[i]));
            }
        }
        if !next.quoted {
            assert forall|i: int| 0 <= i < next.current.len() implies next.current[i] != ' ' by {
                if i < st.current.len() {
                    assert(st.current[i] == next.current[i]);
                    assert(st.current.contains(st.current[i]));
                }
            }
        }
    }
}

/// `lex_inv` holds of every scan.
pub proof fn lemma_lex_inv(s: Seq<char>)
    ensures
        lex_inv(lex(s)),
    decreases s.len(),
{
    if s.len() > 0 {
        lemma_lex_inv(s.drop_last());
        lemma_step_inv(lex(s.drop_last()), s.last());
    }
}

/// No token of a line is empty, and none holds a quote.
pub proof fn lemma_tokens_are_tokens(s: Seq<char>)
    ensures
        forall|k: int| 0 <= k < tokens(s).len() ==> is_token(#[trigger] tokens(s)[k]),
{
    lemma_lex_inv(s);
    let st = lex(s);
    assert forall|k: int| 0 <= k < tokens(s).len() implies is_token(#[trigger] tokens(s)[k]) by {
        if k < st.done.len() {
            assert(tokens(s)[k] == st.done[k]);
        }
    }
}

/// A line of spaces alone, and so the empty line, has no token.
pub proof fn lemma_blank_line_has_no_token(s: Seq<char>)
    requires
        forall|i: int| 0 <= i < s.len() ==> s[i] == ' ',
    ensures
        tokens(s) == Seq::<Seq<char>>::empty(),
{
    lemma_blank_scan(s);
}

/// The scan of a line of spaces alone has read nothing and is outside
/// quotes.
proof fn lemma_blank_scan(s: Seq<char>)
    requires
        forall|i: int| 0 <= i < s.len() ==> s[i] == ' ',
    ensures
        lex(s) == (LexState { quoted: false, current: Seq::empty(), done: Seq::empty() }),
    decreases s.len(),
{
    if s.len() > 0 {
        lemma_blank_scan(s.drop_last());
    }
}

/// A word without space or quote is the one token of the line that holds
/// nothing else.
pub proof fn lemma_word_is_one_token(s: Seq<char>)
    requires
        s.len() > 0,
        !s.contains(' '),
        !s.contains('"'),
    ensures
        tokens(s) == seq![s],
{
    assert forall|i: int| 0 <= i < s.len() implies s[i] != ' ' && s[i] != '"' by {
        assert(s.contains(s[i]));
    }
    lemma_word_scan(s);
    assert(tokens(s) =~= seq![s]);
}

/// The scan of characters without space or quote has read them all into one
/// token.
proof fn lemma_word_scan(s: Seq<char>)
    requires
        forall|i: int| 0 <= i < s.len() ==> s[i] != ' ' && s[i] != '"',
    ensures
        lex(s) == (LexState { quoted: false, current: s, done: Seq::empty() }),
    decreases s.len(),
{
    if s.len() > 0 {
        lemma_word_scan(s.drop_last());
        assert(s.drop_last().push(s.last()) =~= s);
    } else {
        assert(s =~= Seq::empty());
    }
}

/// Whether the quotes of `s` are closed: a scan of `s` ends outside quotes.
pub open spec fn quotes_closed(s: Seq<char>) -> bool {
    !lex(s).quoted
}

/// A space outside quotes parts a line into two lines: the tokens of the
/// whole are the tokens of what stands before the space, then the tokens of
/// what stands behind it.
pub proof fn lemma_tokens_split_at_space(before: Seq<char>, after: Seq<char>)
    requires
        quotes_closed(before),
    ensures
        tokens(before + seq![' '] + after) == tokens(before) + tokens(after),
{
    lemma_scan_behind_space(before, after);
    let tail = lex(after);
    if tail.current.len() > 0 {
        assert((tokens(before) + tail.done).push(tail.current) =~= tokens(before) + tail.done.push(
            tail.current,
        ));
    }
}

/// The scan of a line behind a space outside quotes is the scan of what
/// stands behind the space, with the tokens of what stands before it in
/// front.
proof fn lemma_scan_behind_space(before: Seq<char>, after: Seq<char>)
    requires
        quotes_closed(before),
    ensures
        lex(before + seq![' '] + after) == (LexState {
            quoted: lex(after).quoted,
            current: lex(after).current,
            done: tokens(before) + lex(after).done,
        }),
    decreases after.len(),
{
    let head = before + seq![' '];
    if after.len() == 0 {
        assert(head + after =~= head);
        assert(head.drop_last() =~= before);
        assert(tokens(before) + lex(after).done =~= tokens(before));
    } else {
        let shorter = after.drop_last();
        let c = after.last();
        lemma_scan_behind_space(before, shorter);
        assert((head + after).drop_last() =~= head + shorter);
        assert((head + after).last() == c);
        let prev = lex(shorter);
        if is_delimiter(prev.quoted, c) {
            if prev.current.len() > 0 {
                assert((tokens(before) + prev.done).push(prev.current) =~= tokens(before)
                    + prev.done.push(prev.current));
            }
        }
    }
}

/// Text between a pair of quotes, with no quote in it, is one token, spaces
/// and all; between the quotes of an empty pair there is no token.
pub proof fn lemma_quoted_is_one_token(inner: Seq<char>)
    requires
        !inner.contains('"'),
    ensures
        tokens(seq!['"'] + inner + seq!['"']) == if inner.len() > 0 {
            seq![inner]
        } else {
            Seq::<Seq<char>>::empty()
        },
        quotes_closed(seq!['"'] + inner + seq!['"']),
{
    let open = seq!['"'] + inner;
    let whole = open + seq!['"'];
    assert forall|i: int| 0 <= i < inner.len() implies inner[i] != '"' by {
        assert(inner.contains(inner[i]));
    }
    lemma_scan_inside_quotes(inner);
    assert(whole.drop_last() =~= open);
    if inner.len() > 0 {
        assert(lex(whole).done =~= seq![inner]);
        assert(tokens(whole) =~= seq![inner]);
    } else {
        assert(tokens(whole) =~= Seq::<Seq<char>>::empty());
    }
}

/// The scan behind an opening quote, of characters that are no quotes, is
/// inside quotes and has read them all into one token.
proof fn lemma_scan_inside_quotes(inner: Seq<char>)
    requires
        forall|i: int| 0 <= i < inner.len() ==> inner[i] != '"',
    ensures
        lex(seq!['"'] + inner) == (LexState { quoted: true, current: inner, done: Seq::empty() }),
    decreases inner.len(),
{
    let open = seq!['"'];
    if inner.len() == 0 {
        assert(open + inner =~= open);
        assert(open.drop_last() =~= Seq::empty());
        assert(inner =~= Seq::empty());
        assert(lex(open) == step(lex(Seq::empty()), '"'));
    } else {
        lemma_scan_inside_quotes(inner.drop_last());
        assert((open + inner).drop_last() =~= open + inner.drop_last());
        assert((open + inner).last() == inner.last());
        assert(inner.drop_last().push(inner.last()) =~= inner);
    }
}

} // verus!
