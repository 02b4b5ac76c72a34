//! Splitting SQL text into top-level statements at semicolons.
use vstd::prelude::*;

use crate::text::{chars_of, slice, string_of, trim, trimmed, lemma_trimmed_idempotent};

verus! {

/// One top-level statement's text and whether a semicolon ended it.
#[derive(Debug)]
pub struct StatementFragment {
    pub sql: String,
    pub has_semicolon: bool,
}

/// Fragments are trimmed and non-empty, and every fragment but the last was
/// ended by a semicolon.
pub open spec fn well_formed_fragments(fs: Seq<StatementFragment>) -> bool {
    &&& forall|i: int| 0 <= i < fs.len() ==> (#[trigger] fs[i]).sql@.len() > 0 && fs[i].sql@ == trimmed(fs[i].sql@)
    &&& forall|i: int| 0 <= i < fs.len() - 1 ==> (#[trigger] fs[i]).has_semicolon
}

/// A fragment as plain values: its text and whether a semicolon ended it.
pub open spec fn fragment_views(fs: Seq<StatementFragment>) -> Seq<(Seq<char>, bool)> {
    fs.map_values(|f: StatementFragment| (f.sql@, f.has_semicolon))
}

/// The fragments with a piece of text added, trimmed, unless it is blank.
pub open spec fn push_piece(acc: Seq<(Seq<char>, bool)>, text: Seq<char>, has_semicolon: bool) -> Seq<
    (Seq<char>, bool),
> {
    if trimmed(text).len() == 0 {
        acc
    } else {
        acc.push((trimmed(text), has_semicolon))
    }
}

/// Whether `s[i]` and `s[i + 1]` are `a` and `b`.
pub open spec fn pair_at(s: Seq<char>, i: int, a: char, b: char) -> bool {
    0 <= i && i + 1 < s.len() && s[i] == a && s[i + 1] == b
}

/// The fragments of `s` from position `idx` on, the current one starting at
/// `start`, in the given quote and comment state.
pub open spec fn fragment_scan(
    s: Seq<char>,
    idx: int,
    start: int,
    in_single: bool,
    in_double: bool,
    in_line: bool,
    in_block: nat,
    acc: Seq<(Seq<char>, bool)>,
) -> Seq<(Seq<char>, bool)>
    decreases s.len() - idx,
{
    if idx < 0 || idx >= s.len() {
        push_piece(acc, s.subrange(start, s.len() as int), false)
    } else {
        let c = s[idx];
        if in_line {
            fragment_scan(s, idx + 1, start, in_single, in_double, c != '\n', in_block, acc)
        } else if in_block > 0 {
            if pair_at(s, idx, '/', '*') {
                fragment_scan(s, idx + 2, start, in_single, in_double, false, in_block + 1, acc)
            } else if pair_at(s, idx, '*', '/') {
                fragment_scan(s, idx + 2, start, in_single, in_double, false, (in_block - 1) as nat, acc)
            } else {
                fragment_scan(s, idx + 1, start, in_single, in_double, false, in_block, acc)
            }
        } else if in_single {
            if pair_at(s, idx, '\'', '\'') {
                fragment_scan(s, idx + 2, start, true, in_double, false, 0, acc)
            } else {
                fragment_scan(s, idx + 1, start, c != '\'', in_double, false, 0, acc)
            }
        } else if in_double {
            if pair_at(s, idx, '"', '"') {
                fragment_scan(s, idx + 2, start, false, true, false, 0, acc)
            } else {
                fragment_scan(s, idx + 1, start, false, c != '"', false, 0, acc)
            }
        } else if pair_at(s, idx, '-', '-') {
            fragment_scan(s, idx + 2, start, false, false, true, 0, acc)
        } else if pair_at(s, idx, '/', '*') {
            fragment_scan(s, idx + 2, start, false, false, false, 1, acc)
        } else if c == '\'' {
            fragment_scan(s, idx + 1, start, true, false, false, 0, acc)
        } else if c == '"' {
            fragment_scan(s, idx + 1, start, false, true, false, 0, acc)
        } else if c == ';' {
            fragment_scan(s, idx + 1, idx + 1, false, false, false, 0, push_piece(acc, s.subrange(start, idx), true))
        } else {
            fragment_scan(s, idx + 1, start, false, false, false, 0, acc)
        }
    }
}

/// The top-level statements of a text, as `split_sql_fragments` finds them.
pub open spec fn fragments_of(s: Seq<char>) -> Seq<(Seq<char>, bool)> {
    fragment_scan(s, 0, 0, false, false, false, 0, Seq::empty())
}

/// Text without quotes and comments: no `'`, no `"`, no `--` and no `/*`.
pub open spec fn plain_text(s: Seq<char>) -> bool {
    forall|i: int| 0 <= i < s.len() ==> #[trigger] s[i] != '\'' && s[i] != '"' && !pair_at(s, i, '-', '-') && !pair_at(
        s,
        i,
        '/',
        '*',
    )
}

/// The pieces of `s` from `idx` on, cut at every `;`, the current one
/// starting at `start`: each trimmed, blank ones dropped, and all but the
/// last ended by a semicolon.
pub open spec fn semicolon_scan(s: Seq<char>, idx: int, start: int, acc: Seq<(Seq<char>, bool)>) -> Seq<(Seq<char>, bool)>
    decreases s.len() - idx,
{
    if idx < 0 || idx >= s.len() {
        push_piece(acc, s.subrange(start, s.len() as int), false)
    } else if s[idx] == ';' {
        semicolon_scan(s, idx + 1, idx + 1, push_piece(acc, s.subrange(start, idx), true))
    } else {
        semicolon_scan(s, idx + 1, start, acc)
    }
}

/// The text cut at every `;`.
pub open spec fn semicolon_pieces(s: Seq<char>) -> Seq<(Seq<char>, bool)> {
    semicolon_scan(s, 0, 0, Seq::empty())
}

proof fn lemma_plain_scan(s: Seq<char>, idx: int, start: int, acc: Seq<(Seq<char>, bool)>)
    requires
        plain_text(s),
        0 <= idx,
    ensures
        fragment_scan(s, idx, start, false, false, false, 0, acc) == semicolon_scan(s, idx, start, acc),
    decreases s.len() - idx,
{
    if idx < s.len() {
        assert(s[idx] != '\'' && s[idx] != '"' && !pair_at(s, idx, '-', '-') && !pair_at(s, idx, '/', '*'));
        if s[idx] == ';' {
            lemma_plain_scan(s, idx + 1, idx + 1, push_piece(acc, s.subrange(start, idx), true));
        } else {
            lemma_plain_scan(s, idx + 1, start, acc);
        }
    }
}

/// In text without quotes and comments every semicolon ends a statement:
/// the fragments are the text cut at every `;`.
pub proof fn law_plain_text_splits_at_every_semicolon(s: Seq<char>)
    requires
        plain_text(s),
    ensures
        fragments_of(s) == semicolon_pieces(s),
{
    lemma_plain_scan(s, 0, 0, Seq::empty());
}

fn push_fragment(fragments: &mut Vec<StatementFragment>, text: &[char], has_semicolon: bool)
    requires
        well_formed_fragments(old(fragments)@),
        forall|i: int| 0 <= i < old(fragments)@.len() ==> (#[trigger] old(fragments)@[i]).has_semicolon,
    ensures
        well_formed_fragments(final(fragments)@),
        final(fragments)@.len() >= old(fragments)@.len(),
        has_semicolon ==> forall|i: int| 0 <= i < final(fragments)@.len() ==> (#[trigger] final(fragments)@[i]).has_semicolon,
        fragment_views(final(fragments)@) == push_piece(fragment_views(old(fragments)@), text@, has_semicolon),
{
    let t = trim(text);
    if t.len() == 0 {
        return;
    }
    proof {
        lemma_trimmed_idempotent(text@);
    }
    let ghost before = fragments@;
    let f = StatementFragment { sql: string_of(t.as_slice()), has_semicolon };
    fragments.push(f);
    assert(fragment_views(fragments@) =~= fragment_views(before).push((t@, has_semicolon)));
}

/// Whether the character after position `idx` is `x`.
pub fn next_is(s: &[char], idx: usize, x: char) -> (r: bool)
    ensures
        r == (idx + 1 < s@.len() && s@[idx + 1] == x),
{
    idx < s.len() && idx + 1 < s.len() && s[idx + 1] == x
}

/// Splits SQL text at semicolons that stand outside quotes and comments.
/// Each fragment is the trimmed text between two such semicolons (empty
/// ones are dropped) and records whether a semicolon ended it; line
/// comments run to the end of the line and block comments nest.
pub fn split_sql_fragments(input: &str) -> (fragments: Vec<StatementFragment>)
    ensures
        well_formed_fragments(fragments@),
        fragment_views(fragments@) == fragments_of(input@),
{
    let s = chars_of(input);
    let mut fragments: Vec<StatementFragment> = Vec::new();
    assert(fragment_views(fragments@) =~= Seq::<(Seq<char>, bool)>::empty());
    let mut start: usize = 0;
    let mut idx: usize = 0;
    let mut in_single = false;
    let mut in_double = false;
    let mut in_line_comment = false;
    let mut in_block_comment: usize = 0;
    while idx < s.len()
        invariant
            start <= idx <= s@.len(),
            in_block_comment <= idx,
            well_formed_fragments(fragments@),
            forall|i: int| 0 <= i < fragments@.len() ==> (#[trigger] fragments@[i]).has_semicolon,
            s@ == input@,
            in_line_comment ==> in_block_comment == 0,
            fragment_scan(
                s@,
                idx as int,
                start as int,
                in_single,
                in_double,
                in_line_comment,
                in_block_comment as nat,
                fragment_views(fragments@),
            ) == fragments_of(input@),
        decreases s.len() - idx,
    {
        let c = s[idx];
        if in_line_comment {
            if c == '\n' {
                in_line_comment = false;
            }
            idx = idx + 1;
        } else if in_block_comment > 0 {
            if c == '/' && next_is(s.as_slice(), idx, '*') {
                in_block_comment = in_block_comment + 1;
                idx = idx + 2;
            } else if c == '*' && next_is(s.as_slice(), idx, '/') {
                in_block_comment = in_block_comment - 1;
                idx = idx + 2;
            } else {
                idx = idx + 1;
            }
        } else if in_single {
            if c == '\'' && next_is(s.as_slice(), idx, '\'') {
                idx = idx + 2;
            } else {
                if c == '\'' {
                    in_single = false;
                }
                idx = idx + 1;
            }
        } else if in_double {
            if c == '"' && next_is(s.as_slice(), idx, '"') {
                idx = idx + 2;
            } else {
                if c == '"' {
                    in_double = false;
                }
                idx = idx + 1;
            }
        } else if c == '-' && next_is(s.as_slice(), idx, '-') {
            in_line_comment = true;
            idx = idx + 2;
        } else if c == '/' && next_is(s.as_slice(), idx, '*') {
            in_block_comment = 1;
            idx = idx + 2;
        } else if c == '\'' {
            in_single = true;
            idx = idx + 1;
        } else if c == '"' {
            in_double = true;
            idx = idx + 1;
        } else if c == ';' {
            let piece = slice(s.as_slice(), start, idx);
            push_fragment(&mut fragments, piece.as_slice(), true);
            idx = idx + 1;
            start = idx;
        } else {
            idx = idx + 1;
        }
    }
    let rest = slice(s.as_slice(), start, s.len());
    push_fragment(&mut fragments, rest.as_slice(), false);
    fragments
}

} // verus!
