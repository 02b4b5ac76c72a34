//! Comments are taken out before formatting and put back next to the token
//! they followed or preceded.
use vstd::prelude::*;

use crate::config::DialectKind;
use crate::text::{chars_of, is_whitespace, push_all, push_str, slice};
use crate::tokens::{tokenize, Tok, TokKind};

verus! {

/// A comment and where it belongs: before the non-whitespace token with
/// this index, or (when inline) after the previous one on the same line.
pub struct CommentFragment {
    pub index: usize,
    pub inline_with_prev: bool,
    pub leading: Vec<char>,
    pub content: Vec<char>,
}

/// The position of the last newline, if any.
pub open spec fn last_nl(s: Seq<char>) -> Option<int>
    decreases s.len(),
{
    if s.len() == 0 {
        None
    } else if s.last() == '\n' {
        Some(s.len() - 1)
    } else {
        last_nl(s.drop_last())
    }
}

proof fn lemma_last_nl_at(s: Seq<char>, p: int)
    requires
        0 <= p < s.len(),
        s[p] == '\n',
        forall|j: int| p < j < s.len() ==> s[j] != '\n',
    ensures
        last_nl(s) == Some(p),
    decreases s.len(),
{
    if p < s.len() - 1 {
        lemma_last_nl_at(s.drop_last(), p);
    }
}

proof fn lemma_last_nl_none(s: Seq<char>)
    requires
        forall|j: int| 0 <= j < s.len() ==> s[j] != '\n',
    ensures
        last_nl(s) is None,
    decreases s.len(),
{
    if s.len() > 0 {
        lemma_last_nl_none(s.drop_last());
    }
}

/// Whitespace up to and including its last newline.
pub open spec fn ws_prefix(s: Seq<char>) -> Seq<char> {
    match last_nl(s) {
        Some(p) => s.take(p + 1),
        None => Seq::empty(),
    }
}

/// Whitespace after its last newline: the indentation it ends with.
pub open spec fn ws_indent(s: Seq<char>) -> Seq<char> {
    match last_nl(s) {
        Some(p) => s.skip(p + 1),
        None => s,
    }
}

/// The position of the last newline, if any.
fn last_newline(s: &[char]) -> (r: Option<usize>)
    ensures
        r matches Some(p) ==> p < usize::MAX && p < s@.len() && s@[p as int] == '\n' && forall|j: int| p < j < s@.len() ==> s@[j] != '\n',
        r is None ==> forall|j: int| 0 <= j < s@.len() ==> s@[j] != '\n',
{
    let mut i = s.len();
    while i > 0
        invariant
            i <= s@.len(),
            forall|j: int| i <= j < s@.len() ==> s@[j] != '\n',
        decreases i,
    {
        if s[i - 1] == '\n' {
            return Some(i - 1);
        }
        i = i - 1;
    }
    None
}

/// The text after the last newline, or all of it.
fn after_last_newline(s: &[char]) -> (r: Vec<char>)
    ensures
        r@ == ws_indent(s@),
{
    match last_newline(s) {
        Some(p) => {
            proof {
                lemma_last_nl_at(s@, p as int);
            }
            let r = slice(s, p + 1, s.len());
            assert(r@ =~= s@.skip(p + 1));
            r
        },
        None => {
            proof {
                lemma_last_nl_none(s@);
            }
            let r = slice(s, 0, s.len());
            assert(r@ =~= s@);
            r
        },
    }
}

fn is_whitespace_token(t: &Tok) -> (r: bool)
    ensures
        r == (t.kind is Space || t.kind is Comment),
{
    match t.kind {
        TokKind::Space | TokKind::Comment => true,
        _ => false,
    }
}

/// A comment as a plain value: the index of the token it precedes, whether
/// it follows the previous token on its line, its leading whitespace and
/// its text.
pub open spec fn frag_view(c: CommentFragment) -> (int, bool, Seq<char>, Seq<char>) {
    (c.index as int, c.inline_with_prev, c.leading@, c.content@)
}

pub open spec fn frags_view(v: Seq<CommentFragment>) -> Seq<(int, bool, Seq<char>, Seq<char>)> {
    v.map_values(|c: CommentFragment| frag_view(c))
}

/// The whitespace after a text's last newline, and whether it has one;
/// without one, nothing.
pub open spec fn after_nl(text: Seq<char>) -> (Seq<char>, bool) {
    match last_nl(text) {
        Some(p) => (text.skip(p + 1), true),
        None => (Seq::empty(), false),
    }
}

/// The comments found so far, the count of other tokens, the whitespace on
/// the current line since the last such token, and whether a newline came
/// since.
pub type ExtractState = (Seq<(int, bool, Seq<char>, Seq<char>)>, int, Seq<char>, bool);

pub open spec fn extract_step(st: ExtractState, t: Tok) -> ExtractState {
    let (cs, n, ws, saw) = st;
    let text = t.text@;
    if t.kind is Comment {
        let (ws2, saw2) = after_nl(text);
        (cs.push((n, n > 0 && !saw, ws_indent(ws), text)), n, ws2, saw2)
    } else if t.kind is Space {
        match last_nl(text) {
            Some(p) => (cs, n, text.skip(p + 1), true),
            None => (cs, n, ws + text, saw),
        }
    } else {
        (cs, n + 1, Seq::empty(), false)
    }
}

pub open spec fn extract_scan(ts: Seq<Tok>) -> ExtractState
    decreases ts.len(),
{
    if ts.len() == 0 {
        (Seq::empty(), 0, Seq::empty(), false)
    } else {
        extract_step(extract_scan(ts.drop_last()), ts.last())
    }
}

/// Finds the comments of a text, with the index of the token that follows
/// them and the indentation they had.
pub fn extract_comments(input: &str, dialect: DialectKind) -> (r: Result<Vec<CommentFragment>, String>)
    ensures
        r is Ok <==> crate::tokens::sql_tokens(dialect, input@) is Some,
        r matches Ok(v) ==> frags_view(v@) == extract_scan(crate::tokens::sql_tokens(dialect, input@).unwrap()).0,
{
    let tokens = tokenize(dialect, input)?;
    let ghost ts = tokens@;
    let mut comments: Vec<CommentFragment> = Vec::new();
    let mut non_ws_idx: usize = 0;
    let mut ws_since: Vec<char> = Vec::new();
    let mut saw_newline = false;
    let mut i: usize = 0;
    assert(frags_view(comments@) =~= Seq::<(int, bool, Seq<char>, Seq<char>)>::empty());
    assert(ws_since@ =~= Seq::<char>::empty());
    while i < tokens.len()
        invariant
            i <= tokens@.len(),
            non_ws_idx <= i,
            ts == tokens@,
            extract_scan(ts.take(i as int)) == (frags_view(comments@), non_ws_idx as int, ws_since@, saw_newline),
        decreases tokens.len() - i,
    {
        proof {
            assert(ts.take(i + 1).drop_last() =~= ts.take(i as int));
            assert(ts.take(i + 1).last() == ts[i as int]);
        }
        let tok = &tokens[i];
        let text = chars_of(tok.text.as_str());
        match tok.kind {
            TokKind::Comment => {
                let ghost before = frags_view(comments@);
                let inline_with_prev = non_ws_idx > 0 && !saw_newline;
                let leading = after_last_newline(ws_since.as_slice());
                let content = slice(text.as_slice(), 0, text.len());
                assert(content@ =~= text@);
                comments.push(CommentFragment { index: non_ws_idx, inline_with_prev, leading, content });
                assert(frags_view(comments@) =~= before.push((non_ws_idx as int, inline_with_prev, ws_indent(ws_since@), tok.text@)));
                match last_newline(text.as_slice()) {
                    Some(p) => {
                        proof {
                            lemma_last_nl_at(text@, p as int);
                        }
                        ws_since = slice(text.as_slice(), p + 1, text.len());
                        assert(ws_since@ =~= text@.skip(p + 1));
                        saw_newline = true;
                    },
                    None => {
                        proof {
                            lemma_last_nl_none(text@);
                        }
                        ws_since = Vec::new();
                        saw_newline = false;
                    },
                }
            },
            TokKind::Space => {
                match last_newline(text.as_slice()) {
                    Some(p) => {
                        proof {
                            lemma_last_nl_at(text@, p as int);
                        }
                        ws_since = slice(text.as_slice(), p + 1, text.len());
                        assert(ws_since@ =~= text@.skip(p + 1));
                        saw_newline = true;
                    },
                    None => {
                        proof {
                            lemma_last_nl_none(text@);
                        }
                        let ghost w0 = ws_since@;
                        push_all(&mut ws_since, text.as_slice());
                        assert(ws_since@ =~= w0 + text@);
                    },
                }
            },
            _ => {
                non_ws_idx = non_ws_idx + 1;
                ws_since = Vec::new();
                saw_newline = false;
            },
        }
        i = i + 1;
    }
    proof {
        assert(ts.take(i as int) =~= ts);
    }
    Ok(comments)
}

/// Splits whitespace into what runs up to and including its last newline and
/// the indentation after it.
pub fn split_leading_ws(ws: &[char]) -> (r: (Vec<char>, Vec<char>))
    ensures
        r.0@ + r.1@ == ws@,
        r.0@ == ws_prefix(ws@),
        r.1@ == ws_indent(ws@),
{
    match last_newline(ws) {
        Some(p) => {
            proof {
                lemma_last_nl_at(ws@, p as int);
            }
            let a = slice(ws, 0, p + 1);
            let b = slice(ws, p + 1, ws.len());
            assert(a@ + b@ =~= ws@);
            assert(a@ =~= ws@.take(p + 1));
            assert(b@ =~= ws@.skip(p + 1));
            (a, b)
        },
        None => {
            proof {
                lemma_last_nl_none(ws@);
            }
            let b = slice(ws, 0, ws.len());
            assert(Seq::<char>::empty() + b@ =~= ws@);
            assert(b@ =~= ws@);
            (Vec::new(), b)
        },
    }
}

/// Drops one leading line break (`\r\n` or `\n`).
pub fn trim_one_newline(s: &Vec<char>) -> (r: Vec<char>)
    ensures
        s@.len() >= 2 && s@[0] == '\r' && s@[1] == '\n' ==> r@ == s@.skip(2),
        !(s@.len() >= 2 && s@[0] == '\r' && s@[1] == '\n') && s@.len() >= 1 && s@[0] == '\n' ==> r@ == s@.skip(1),
        !(s@.len() >= 2 && s@[0] == '\r' && s@[1] == '\n') && !(s@.len() >= 1 && s@[0] == '\n') ==> r@ == s@,
{
    if s.len() >= 2 && s[0] == '\r' && s[1] == '\n' {
        slice(s.as_slice(), 2, s.len())
    } else if s.len() >= 1 && s[0] == '\n' {
        slice(s.as_slice(), 1, s.len())
    } else {
        slice(s.as_slice(), 0, s.len())
    }
}

/// Whether the text ends with a whitespace character.
pub fn ends_with_whitespace(s: &[char]) -> (r: bool)
    ensures
        r == (s@.len() > 0 && crate::text::is_ws(s@.last())),
{
    s.len() > 0 && is_whitespace(s[s.len() - 1])
}

/// The text without its trailing spaces and tabs.
pub open spec fn without_trailing_inline_ws(s: Seq<char>) -> Seq<char>
    decreases s.len(),
{
    if s.len() > 0 && (s.last() == ' ' || s.last() == '\t') {
        without_trailing_inline_ws(s.drop_last())
    } else {
        s
    }
}

/// Drops trailing spaces and tabs.
pub fn trim_trailing_inline_ws(out: &mut Vec<char>)
    ensures
        final(out)@ == without_trailing_inline_ws(old(out)@),
{
    while out.len() > 0 && (out[out.len() - 1] == ' ' || out[out.len() - 1] == '\t')
        invariant
            without_trailing_inline_ws(out@) == without_trailing_inline_ws(old(out)@),
        decreases out.len(),
    {
        let ghost before = out@;
        out.pop();
        assert(out@ =~= before.drop_last());
    }
}

fn contains_newline(s: &[char]) -> (r: bool)
    ensures
        r == exists|j: int| 0 <= j < s@.len() && s@[j] == '\n',
{
    last_newline(s).is_some()
}

/// Writes a comment on a line of its own before the next token.
fn emit_own_line(out: &mut Vec<char>, indent: &[char], c: &CommentFragment)
    ensures
        final(out)@ == old(out)@ + indent@ + c.content@ + (if c.content@.len() > 0 && crate::text::is_ws(
            c.content@.last(),
        ) {
            Seq::empty()
        } else {
            seq!['\n']
        }),
{
    let ghost o0 = out@;
    if indent.len() > 0 {
        push_all(out, indent);
    }
    assert(out@ =~= o0 + indent@);
    push_all(out, c.content.as_slice());
    let ghost o1 = out@;
    if !ends_with_whitespace(c.content.as_slice()) {
        out.push('\n');
    }
    assert(out@ =~= o1 + (if c.content@.len() > 0 && crate::text::is_ws(c.content@.last()) {
        Seq::<char>::empty()
    } else {
        seq!['\n']
    }));
}

/// Drops one leading line break (`\r\n` or `\n`).
pub open spec fn trim_one_nl(s: Seq<char>) -> Seq<char> {
    if s.len() >= 2 && s[0] == '\r' && s[1] == '\n' {
        s.skip(2)
    } else if s.len() >= 1 && s[0] == '\n' {
        s.skip(1)
    } else {
        s
    }
}

pub open spec fn has_nl(s: Seq<char>) -> bool {
    exists|j: int| 0 <= j < s.len() && s[j] == '\n'
}

pub open spec fn ends_ws(s: Seq<char>) -> bool {
    s.len() > 0 && crate::text::is_ws(s.last())
}

/// A comment on a line of its own: the indentation, the comment, and a
/// newline unless it ends with whitespace.
pub open spec fn own_line_text(indent: Seq<char>, c: CommentFragment) -> Seq<char> {
    indent + c.content@ + (if ends_ws(c.content@) { Seq::empty() } else { seq!['\n'] })
}

/// What goes before an inline comment: the whitespace it had, or a space.
pub open spec fn spacer(c: CommentFragment) -> Seq<char> {
    if c.leading@.len() == 0 {
        seq![' ']
    } else {
        c.leading@
    }
}

/// The comments from `k` on that stand on their own line before the token
/// with index `n`, written out; and where the next comment is.
pub open spec fn own_lines(cs: Seq<CommentFragment>, k: int, n: int, indent: Seq<char>, out: Seq<char>) -> (Seq<char>, int)
    decreases cs.len() - k,
{
    if 0 <= k < cs.len() && !cs[k].inline_with_prev && cs[k].index == n {
        own_lines(cs, k + 1, n, indent, out + own_line_text(indent, cs[k]))
    } else {
        (out, k)
    }
}

/// The comments from `k` on that follow the token before index `n` on its
/// line, written out after it; with whether the next leading newline, or
/// the next leading spaces, are to be dropped.
pub open spec fn inline_after(
    cs: Seq<CommentFragment>,
    k: int,
    n: int,
    out: Seq<char>,
    skip_nl: bool,
    skip_inline: bool,
) -> (Seq<char>, int, bool, bool)
    decreases cs.len() - k,
{
    if 0 <= k < cs.len() && cs[k].inline_with_prev && cs[k].index == n {
        let c = cs[k];
        let o = out + spacer(c) + c.content@;
        if c.content@.len() > 0 && c.content@.last() == '\n' {
            inline_after(cs, k + 1, n, o, true, skip_inline)
        } else if !ends_ws(c.content@) {
            inline_after(cs, k + 1, n, o + seq![' '], skip_nl, true)
        } else {
            inline_after(cs, k + 1, n, o, skip_nl, skip_inline)
        }
    } else {
        (out, k, skip_nl, skip_inline)
    }
}

/// The state of putting comments back: the text written, the whitespace
/// waiting, the count of tokens written, the next comment, and whether the
/// next leading newline or leading spaces are dropped.
pub type AttachState = (Seq<char>, Seq<char>, int, int, bool, bool);

/// The whitespace before a token after dropping what an inline comment
/// asked to drop, and the text written so far after trailing spaces are
/// removed for it.
pub open spec fn settle_leading(out: Seq<char>, pending: Seq<char>, skip_nl: bool, skip_inline: bool) -> (Seq<char>, Seq<char>) {
    let l0 = if skip_nl { trim_one_nl(pending) } else { pending };
    if skip_inline {
        if has_nl(l0) {
            (without_trailing_inline_ws(out), l0)
        } else {
            (out, Seq::empty())
        }
    } else {
        (out, l0)
    }
}

/// One token of the formatted text: whitespace waits; any other token is
/// written after its leading whitespace, with the own-line comments that
/// belong before it and the inline comments that follow it.
pub open spec fn attach_step(st: AttachState, t: Tok, cs: Seq<CommentFragment>) -> AttachState {
    let (out, pending, n, k, snl, sil) = st;
    if t.kind is Space || t.kind is Comment {
        (out, pending + t.text@, n, k, snl, sil)
    } else {
        let (out1, l1) = settle_leading(out, pending, snl, sil);
        let (out3, k1) = own_lines(cs, k, n, ws_indent(l1), out1 + ws_prefix(l1));
        let (out5, k2, snl2, sil2) = inline_after(cs, k1, n + 1, out3 + ws_indent(l1) + t.text@, false, false);
        (out5, Seq::empty(), n + 1, k2, snl2, sil2)
    }
}

pub open spec fn attach_scan(ts: Seq<Tok>, cs: Seq<CommentFragment>) -> AttachState
    decreases ts.len(),
{
    if ts.len() == 0 {
        (Seq::empty(), Seq::empty(), 0, 0, false, false)
    } else {
        attach_step(attach_scan(ts.drop_last(), cs), ts.last(), cs)
    }
}

/// Comments in the order extraction finds them at their tokens: by token,
/// and at one token those on the previous token's line before those on
/// lines of their own; none on the line of a token that does not exist.
pub open spec fn comments_in_order(cs: Seq<CommentFragment>) -> bool {
    &&& forall|i: int, j: int| 0 <= i < j < cs.len() ==> #[trigger] cs[i].index <= #[trigger] cs[j].index
    &&& forall|i: int, j: int|
        0 <= i < j < cs.len() && #[trigger] cs[i].index == #[trigger] cs[j].index && !cs[i].inline_with_prev
            ==> !cs[j].inline_with_prev
    &&& forall|i: int| 0 <= i < cs.len() && (#[trigger] cs[i]).inline_with_prev ==> cs[i].index >= 1
}

/// Whether a comment has its place once `n` tokens are written: before one
/// of them, or after the last of them on its line.
pub open spec fn placed_by(c: CommentFragment, n: int) -> bool {
    c.index < n || (c.index == n && c.inline_with_prev)
}

/// The first `k` comments are exactly those that have their place once
/// `n` tokens are written.
pub open spec fn placed_prefix(cs: Seq<CommentFragment>, k: int, n: int) -> bool {
    &&& 0 <= k <= cs.len()
    &&& forall|j: int| 0 <= j < k ==> placed_by(#[trigger] cs[j], n)
    &&& forall|j: int| k <= j < cs.len() ==> !placed_by(#[trigger] cs[j], n)
}

proof fn lemma_own_lines_stop(cs: Seq<CommentFragment>, k: int, n: int, indent: Seq<char>, out: Seq<char>)
    requires
        0 <= k <= cs.len(),
    ensures
        k <= own_lines(cs, k, n, indent, out).1 <= cs.len(),
        forall|j: int| k <= j < own_lines(cs, k, n, indent, out).1 ==> !(#[trigger] cs[j]).inline_with_prev && cs[j].index == n,
        ({
            let k1 = own_lines(cs, k, n, indent, out).1;
            !(k1 < cs.len() && !cs[k1].inline_with_prev && cs[k1].index == n)
        }),
    decreases cs.len() - k,
{
    if 0 <= k < cs.len() && !cs[k].inline_with_prev && cs[k].index == n {
        lemma_own_lines_stop(cs, k + 1, n, indent, out + own_line_text(indent, cs[k]));
    }
}

proof fn lemma_inline_after_stop(
    cs: Seq<CommentFragment>,
    k: int,
    n: int,
    out: Seq<char>,
    skip_nl: bool,
    skip_inline: bool,
)
    requires
        0 <= k <= cs.len(),
    ensures
        k <= inline_after(cs, k, n, out, skip_nl, skip_inline).1 <= cs.len(),
        forall|j: int| k <= j < inline_after(cs, k, n, out, skip_nl, skip_inline).1 ==> (#[trigger] cs[j]).inline_with_prev && cs[j].index == n,
        ({
            let k2 = inline_after(cs, k, n, out, skip_nl, skip_inline).1;
            !(k2 < cs.len() && cs[k2].inline_with_prev && cs[k2].index == n)
        }),
    decreases cs.len() - k,
{
    if 0 <= k < cs.len() && cs[k].inline_with_prev && cs[k].index == n {
        let c = cs[k];
        let o = out + spacer(c) + c.content@;
        if c.content@.len() > 0 && c.content@.last() == '\n' {
            lemma_inline_after_stop(cs, k + 1, n, o, true, skip_inline);
        } else if !ends_ws(c.content@) {
            lemma_inline_after_stop(cs, k + 1, n, o + seq![' '], skip_nl, true);
        } else {
            lemma_inline_after_stop(cs, k + 1, n, o, skip_nl, skip_inline);
        }
    }
}

/// Putting comments back keeps them at their tokens and in order: for
/// comments in the order extraction finds them, once the tokens of the
/// formatted text up to any point are written, the comments written are
/// exactly those that belong before one of these tokens or on the line of
/// the last of them; the others (those after the last token) follow it.
pub proof fn law_comments_written_at_their_tokens(ts: Seq<Tok>, cs: Seq<CommentFragment>)
    requires
        comments_in_order(cs),
    ensures
        placed_prefix(cs, attach_scan(ts, cs).3, attach_scan(ts, cs).2),
    decreases ts.len(),
{
    if ts.len() == 0 {
        assert forall|j: int| 0 <= j < cs.len() implies !placed_by(#[trigger] cs[j], 0) by {
            if cs[j].inline_with_prev {
                assert(cs[j].index >= 1);
            }
        }
    } else {
        law_comments_written_at_their_tokens(ts.drop_last(), cs);
        let st = attach_scan(ts.drop_last(), cs);
        let (out, pending, n, k, snl, sil) = st;
        let t = ts.last();
        if !(t.kind is Space || t.kind is Comment) {
            let (out1, l1) = settle_leading(out, pending, snl, sil);
            let ind = ws_indent(l1);
            let o1 = out1 + ws_prefix(l1);
            lemma_own_lines_stop(cs, k, n, ind, o1);
            let (out3, k1) = own_lines(cs, k, n, ind, o1);
            let o3 = out3 + ws_indent(l1) + t.text@;
            lemma_inline_after_stop(cs, k1, n + 1, o3, false, false);
            let k2 = inline_after(cs, k1, n + 1, o3, false, false).1;
            assert(attach_scan(ts, cs).3 == k2);
            assert(attach_scan(ts, cs).2 == n + 1);
            assert forall|j: int| k1 <= j < cs.len() implies #[trigger] cs[j].index > n by {
                assert(!placed_by(cs[k1], n));
                if j > k1 {
                    assert(cs[k1].index <= cs[j].index);
                }
            }
            assert forall|j: int| 0 <= j < k2 implies placed_by(#[trigger] cs[j], n + 1) by {
                if j < k {
                    assert(placed_by(cs[j], n));
                }
            }
            assert forall|j: int| k2 <= j < cs.len() implies !placed_by(#[trigger] cs[j], n + 1) by {
                assert(cs[j].index > n);
                if cs[j].index == n + 1 && cs[j].inline_with_prev {
                    if j > k2 {
                        assert(cs[k2].index > n);
                        assert(cs[k2].index <= cs[j].index);
                        assert(!cs[k2].inline_with_prev);
                    }
                }
            }
        }
    }
}

/// The comments from `k` on, all written after the last token: those that
/// belong there, and any whose token the formatted text no longer has.
pub open spec fn trailing_comments(cs: Seq<CommentFragment>, k: int, n: int, indent: Seq<char>, out: Seq<char>) -> Seq<char>
    decreases cs.len() - k,
{
    if 0 <= k < cs.len() {
        let c = cs[k];
        trailing_comments(
            cs,
            k + 1,
            n,
            indent,
            if c.inline_with_prev {
                out + spacer(c) + c.content@
            } else {
                out + own_line_text(indent, c)
            },
        )
    } else {
        out
    }
}

/// The formatted text's tokens with the comments put back.
pub open spec fn reattached(ts: Seq<Tok>, cs: Seq<CommentFragment>) -> Seq<char> {
    let (out, pending, n, k, snl, sil) = attach_scan(ts, cs);
    let (out1, t1) = settle_leading(out, pending, snl, sil);
    trailing_comments(cs, k, n, ws_indent(t1), out1 + ws_prefix(t1)) + ws_indent(t1)
}

/// Puts the comments back into formatted text, after tokenizing it again.
/// Without comments the text is returned unchanged.
#[verifier::loop_isolation(false)]
#[verifier::rlimit(60)]
pub fn reattach_comments(formatted: Vec<char>, comments: Vec<CommentFragment>, dialect: DialectKind) -> (r: Result<Vec<char>, String>)
    ensures
        comments@.len() == 0 ==> r == Ok::<Vec<char>, String>(formatted),
        comments@.len() > 0 ==> (r is Ok <==> crate::tokens::sql_tokens(dialect, formatted@) is Some),
        comments@.len() > 0 ==> (r matches Ok(out) ==> out@ == reattached(
            crate::tokens::sql_tokens(dialect, formatted@).unwrap(),
            comments@,
        )),
{
    if comments.len() == 0 {
        return Ok(formatted);
    }
    let fs = crate::text::string_of(formatted.as_slice());
    let tokens = tokenize(dialect, fs.as_str())?;
    let ghost ts = tokens@;
    let ghost cs = comments@;
    let mut out: Vec<char> = Vec::new();
    let mut pending_ws: Vec<char> = Vec::new();
    let mut non_ws_idx: usize = 0;
    let mut k: usize = 0;
    let mut skip_leading_newline = false;
    let mut skip_leading_inline_ws = false;
    let mut t: usize = 0;
    assert(attach_scan(ts.take(0), cs) == (Seq::<char>::empty(), Seq::<char>::empty(), 0int, 0int, false, false));
    assert(out@ =~= Seq::<char>::empty() && pending_ws@ =~= Seq::<char>::empty());
    while t < tokens.len()
        invariant
            t <= tokens@.len(),
            k <= comments@.len(),
            non_ws_idx <= t,
            ts == tokens@,
            cs == comments@,
            attach_scan(ts.take(t as int), cs) == (
                out@,
                pending_ws@,
                non_ws_idx as int,
                k as int,
                skip_leading_newline,
                skip_leading_inline_ws,
            ),
        decreases tokens.len() - t,
    {
        proof {
            assert(ts.take(t + 1).drop_last() =~= ts.take(t as int));
            assert(ts.take(t + 1).last() == ts[t as int]);
        }
        let token = &tokens[t];
        let text = chars_of(token.text.as_str());
        if is_whitespace_token(token) {
            let ghost p0 = pending_ws@;
            push_all(&mut pending_ws, text.as_slice());
            assert(pending_ws@ =~= p0 + token.text@);
        } else {
            let ghost n0 = non_ws_idx as int;
            let mut leading_ws = pending_ws;
            pending_ws = Vec::new();
            let ghost st_out = out@;
            let ghost st_pending = leading_ws@;
            let ghost snl0 = skip_leading_newline;
            let ghost sil0 = skip_leading_inline_ws;
            if skip_leading_newline {
                leading_ws = trim_one_newline(&leading_ws);
                skip_leading_newline = false;
            }
            assert(leading_ws@ == (if snl0 { trim_one_nl(st_pending) } else { st_pending }));
            if skip_leading_inline_ws {
                if contains_newline(leading_ws.as_slice()) {
                    trim_trailing_inline_ws(&mut out);
                } else {
                    leading_ws = Vec::new();
                }
                skip_leading_inline_ws = false;
            }
            assert((out@, leading_ws@) == settle_leading(st_out, st_pending, snl0, sil0));
            let (prefix, indent) = split_leading_ws(leading_ws.as_slice());
            push_all(&mut out, prefix.as_slice());
            let ghost k0 = k as int;
            let ghost o2 = out@;
            while k < comments.len() && !comments[k].inline_with_prev && comments[k].index == non_ws_idx
                invariant
                    k <= comments@.len(),
                    k0 <= k,
                    own_lines(cs, k as int, n0, indent@, out@) == own_lines(cs, k0, n0, indent@, o2),
                decreases comments.len() - k,
            {
                let ghost ob = out@;
                assert(own_lines(cs, k as int, n0, indent@, ob) == own_lines(
                    cs,
                    k + 1,
                    n0,
                    indent@,
                    ob + own_line_text(indent@, cs[k as int]),
                ));
                emit_own_line(&mut out, indent.as_slice(), &comments[k]);
                assert(out@ =~= ob + own_line_text(indent@, cs[k as int]));
                k = k + 1;
            }
            let ghost k1 = k as int;
            let ghost o3 = out@;
            assert(own_lines(cs, k0, n0, indent@, o2) == (o3, k1));
            push_all(&mut out, indent.as_slice());
            push_all(&mut out, text.as_slice());
            assert(out@ =~= o3 + indent@ + token.text@);
            non_ws_idx = non_ws_idx + 1;
            let ghost o4 = out@;
            while k < comments.len() && comments[k].inline_with_prev && comments[k].index == non_ws_idx
                invariant
                    k <= comments@.len(),
                    k1 <= k,
                    non_ws_idx == n0 + 1,
                    inline_after(cs, k as int, n0 + 1, out@, skip_leading_newline, skip_leading_inline_ws)
                        == inline_after(cs, k1, n0 + 1, o4, false, false),
                decreases comments.len() - k,
            {
                let c = &comments[k];
                let ghost ob = out@;
                let ghost snl_b = skip_leading_newline;
                let ghost sil_b = skip_leading_inline_ws;
                assert(*c == cs[k as int]);
                if c.leading.len() == 0 {
                    out.push(' ');
                } else {
                    push_all(&mut out, c.leading.as_slice());
                }
                push_all(&mut out, c.content.as_slice());
                let ghost o = ob + spacer(*c) + c.content@;
                assert(out@ =~= o);
                if c.content.len() > 0 && c.content[c.content.len() - 1] == '\n' {
                    skip_leading_newline = true;
                    assert(inline_after(cs, k as int, n0 + 1, ob, snl_b, sil_b) == inline_after(
                        cs,
                        k + 1,
                        n0 + 1,
                        o,
                        true,
                        sil_b,
                    ));
                } else if !ends_with_whitespace(c.content.as_slice()) {
                    out.push(' ');
                    skip_leading_inline_ws = true;
                    assert(out@ =~= o + seq![' ']);
                    assert(inline_after(cs, k as int, n0 + 1, ob, snl_b, sil_b) == inline_after(
                        cs,
                        k + 1,
                        n0 + 1,
                        o + seq![' '],
                        snl_b,
                        true,
                    ));
                } else {
                    assert(inline_after(cs, k as int, n0 + 1, ob, snl_b, sil_b) == inline_after(
                        cs,
                        k + 1,
                        n0 + 1,
                        o,
                        snl_b,
                        sil_b,
                    ));
                }
                k = k + 1;
            }
        }
        t = t + 1;
    }
    proof {
        assert(ts.take(t as int) =~= ts);
    }
    let ghost st_out = out@;
    let ghost st_pending = pending_ws@;
    let ghost snl0 = skip_leading_newline;
    let ghost sil0 = skip_leading_inline_ws;
    let mut trailing_ws = pending_ws;
    if skip_leading_newline {
        trailing_ws = trim_one_newline(&trailing_ws);
    }
    if skip_leading_inline_ws {
        if contains_newline(trailing_ws.as_slice()) {
            trim_trailing_inline_ws(&mut out);
        } else {
            trailing_ws = Vec::new();
        }
    }
    assert((out@, trailing_ws@) == settle_leading(st_out, st_pending, snl0, sil0));
    let (prefix, indent) = split_leading_ws(trailing_ws.as_slice());
    push_all(&mut out, prefix.as_slice());
    let ghost kf = k as int;
    let ghost of = out@;
    while k < comments.len()
        invariant
            k <= comments@.len(),
            kf <= k,
            trailing_comments(cs, k as int, non_ws_idx as int, indent@, out@) == trailing_comments(
                cs,
                kf,
                non_ws_idx as int,
                indent@,
                of,
            ),
        decreases comments.len() - k,
    {
        let c = &comments[k];
        let ghost ob = out@;
        if c.inline_with_prev {
            if c.leading.len() == 0 {
                out.push(' ');
            } else {
                push_all(&mut out, c.leading.as_slice());
            }
            push_all(&mut out, c.content.as_slice());
            assert(out@ =~= ob + spacer(*c) + c.content@);
        } else {
            emit_own_line(&mut out, indent.as_slice(), c);
            assert(out@ =~= ob + own_line_text(indent@, *c));
        }
        k = k + 1;
    }
    let ghost ofin = out@;
    push_all(&mut out, indent.as_slice());
    assert(out@ =~= ofin + indent@);
    Ok(out)
}

} // verus!
