//! Protecting single-quoted string literals from reformatting: each literal
//! is swapped for a numbered placeholder before parsing and put back after
//! printing.
use vstd::prelude::*;

use crate::fragments::next_is;
use crate::literal_laws::{joined, joined_before, placeholders, protects};
use crate::text::{chars_of, decimal, push_all, push_str, replace_all, replaced, slice, string_of, usize_to_chars};

verus! {

/// The placeholder that stands for the `n`-th literal.
pub open spec fn placeholder(n: nat) -> Seq<char> {
    "'__SQLCHISEL_LITERAL_"@ + decimal(n) + "__'"@
}

pub fn make_placeholder(n: usize) -> (r: Vec<char>)
    ensures
        r@ == placeholder(n as nat),
{
    let mut r = chars_of("'__SQLCHISEL_LITERAL_");
    push_all(&mut r, usize_to_chars(n).as_slice());
    push_str(&mut r, "__'");
    r
}

/// The text with each placeholder `0..n` replaced by its literal, in order.
pub open spec fn restored(output: Seq<char>, literals: Seq<Seq<char>>) -> Seq<char>
    decreases literals.len(),
{
    if literals.len() == 0 {
        output
    } else {
        replaced(
            restored(output, literals.drop_last()),
            placeholder((literals.len() - 1) as nat),
            literals.last(),
        )
    }
}

pub open spec fn strings(v: Seq<String>) -> Seq<Seq<char>> {
    v.map_values(|s: String| s@)
}

/// `joined_before` reads only the first `k` pieces and fills.
proof fn lemma_joined_before_congruent(
    p1: Seq<Seq<char>>,
    f1: Seq<Seq<char>>,
    p2: Seq<Seq<char>>,
    f2: Seq<Seq<char>>,
    k: nat,
)
    requires
        k <= p1.len(),
        k <= p2.len(),
        k <= f1.len(),
        k <= f2.len(),
        forall|i: int| 0 <= i < k ==> p1[i] == p2[i] && f1[i] == f2[i],
    ensures
        joined_before(p1, f1, k) == joined_before(p2, f2, k),
    decreases k,
{
    if k > 0 {
        lemma_joined_before_congruent(p1, f1, p2, f2, (k - 1) as nat);
    }
}

/// Where a literal whose text continues at `i` ends: just after its
/// closing quote (a doubled quote does not close it), or at the end of the
/// text.
pub open spec fn literal_end_from(s: Seq<char>, i: int) -> int
    decreases s.len() - i,
{
    if i < 0 || i >= s.len() {
        s.len() as int
    } else if s[i] == '\'' {
        if i + 1 < s.len() && s[i + 1] == '\'' {
            literal_end_from(s, i + 2)
        } else {
            i + 1
        }
    } else {
        literal_end_from(s, i + 1)
    }
}

pub proof fn lemma_literal_end_bound(s: Seq<char>, i: int)
    requires
        0 <= i <= s.len(),
    ensures
        i <= literal_end_from(s, i) <= s.len(),
    decreases s.len() - i,
{
    if i < s.len() {
        if s[i] == '\'' {
            if i + 1 < s.len() && s[i + 1] == '\'' {
                lemma_literal_end_bound(s, i + 2);
            }
        } else {
            lemma_literal_end_bound(s, i + 1);
        }
    }
}

/// Whether `s[i]` and `s[i + 1]` are `a` and `b`.
pub open spec fn pair_at(s: Seq<char>, i: int, a: char, b: char) -> bool {
    0 <= i && i + 1 < s.len() && s[i] == a && s[i + 1] == b
}

/// The protected text and the literals, from position `idx` on, inside a
/// line comment or at a depth of nested block comments: comments are
/// copied, and each literal outside them is taken out and replaced by the
/// next placeholder.
pub open spec fn protect_scan(
    s: Seq<char>,
    idx: int,
    in_line: bool,
    in_block: nat,
    out: Seq<char>,
    lits: Seq<Seq<char>>,
) -> (Seq<char>, Seq<Seq<char>>)
    decreases s.len() - idx,
{
    if idx < 0 || idx >= s.len() {
        (out, lits)
    } else {
        let c = s[idx];
        if in_line {
            protect_scan(s, idx + 1, c != '\n', in_block, out.push(c), lits)
        } else if in_block > 0 {
            let depth: nat = if pair_at(s, idx, '/', '*') {
                in_block + 1
            } else if pair_at(s, idx, '*', '/') {
                (in_block - 1) as nat
            } else {
                in_block
            };
            protect_scan(s, idx + 1, false, depth, out.push(c), lits)
        } else if pair_at(s, idx, '-', '-') {
            protect_scan(s, idx + 2, true, 0, out.push('-').push('-'), lits)
        } else if pair_at(s, idx, '/', '*') {
            protect_scan(s, idx + 2, false, 1, out.push('/').push('*'), lits)
        } else if c == '\'' {
            let e = literal_end_from(s, idx + 1);
            proof {
                lemma_literal_end_bound(s, idx + 1);
            }
            protect_scan(s, e, false, 0, out + placeholder(lits.len()), lits.push(s.subrange(idx, e)))
        } else {
            protect_scan(s, idx + 1, false, 0, out.push(c), lits)
        }
    }
}

/// The protected text and the literals of a whole text.
pub open spec fn protected(s: Seq<char>) -> (Seq<char>, Seq<Seq<char>>) {
    protect_scan(s, 0, false, 0, Seq::empty(), Seq::empty())
}

/// Replaces single-quoted literals (outside comments) by numbered
/// placeholders and returns the literals as written, quotes included. A
/// doubled quote inside a literal does not end it; an unterminated literal
/// runs to the end of the text. The text and its protected form are the same
/// pieces, joined once with the literals and once with the placeholders.
pub fn preserve_string_literals(input: &[char]) -> (r: (Vec<char>, Vec<String>))
    ensures
        forall|i: int| 0 <= i < r.1@.len() ==> (#[trigger] r.1@[i])@.len() > 0 && r.1@[i]@[0] == '\'',
        protects(input@, r.0@, strings(r.1@)),
        (r.0@, strings(r.1@)) == protected(input@),
{
    let mut out: Vec<char> = Vec::new();
    let mut literals: Vec<String> = Vec::new();
    let mut idx: usize = 0;
    let mut in_line_comment = false;
    let mut in_block_comment: usize = 0;
    let ghost mut pieces: Seq<Seq<char>> = Seq::empty();
    let ghost mut cur: Seq<char> = Seq::empty();
    proof {
        assert(input@.take(0) =~= Seq::<char>::empty());
        assert(out@ =~= Seq::<char>::empty());
        assert(strings(literals@) =~= Seq::<Seq<char>>::empty());
    }
    while idx < input.len()
        invariant
            idx <= input@.len(),
            in_block_comment <= idx,
            forall|i: int| 0 <= i < literals@.len() ==> (#[trigger] literals@[i])@.len() > 0 && literals@[i]@[0] == '\'',
            pieces.len() == literals@.len(),
            input@.take(idx as int) == joined_before(pieces, strings(literals@), pieces.len()) + cur,
            out@ == joined_before(pieces, placeholders(pieces.len()), pieces.len()) + cur,
            in_line_comment ==> in_block_comment == 0,
            protect_scan(input@, idx as int, in_line_comment, in_block_comment as nat, out@, strings(literals@))
                == protected(input@),
        decreases input.len() - idx,
    {
        let c = input[idx];
        let ghost old_idx = idx as int;
        if in_line_comment {
            out.push(c);
            if c == '\n' {
                in_line_comment = false;
            }
            idx = idx + 1;
            proof {
                assert(input@.take(idx as int) =~= input@.take(old_idx).push(c));
                cur = cur.push(c);
            }
        } else if in_block_comment > 0 {
            out.push(c);
            if c == '/' && next_is(input, idx, '*') {
                in_block_comment = in_block_comment + 1;
            } else if c == '*' && next_is(input, idx, '/') {
                in_block_comment = in_block_comment - 1;
            }
            idx = idx + 1;
            proof {
                assert(input@.take(idx as int) =~= input@.take(old_idx).push(c));
                cur = cur.push(c);
            }
        } else if c == '-' && next_is(input, idx, '-') {
            out.push('-');
            out.push('-');
            idx = idx + 2;
            in_line_comment = true;
            proof {
                assert(input@.take(idx as int) =~= input@.take(old_idx).push('-').push('-'));
                cur = cur.push('-').push('-');
            }
        } else if c == '/' && next_is(input, idx, '*') {
            out.push('/');
            out.push('*');
            idx = idx + 2;
            in_block_comment = 1;
            proof {
                assert(input@.take(idx as int) =~= input@.take(old_idx).push('/').push('*'));
                cur = cur.push('/').push('*');
            }
        } else if c == '\'' {
            let start = idx;
            idx = idx + 1;
            while idx < input.len()
                invariant_except_break
                    literal_end_from(input@, idx as int) == literal_end_from(input@, start + 1),
                invariant
                    start < idx <= input@.len(),
                    input@[start as int] == '\'',
                ensures
                    start < idx <= input@.len(),
                    idx == literal_end_from(input@, start + 1),
                decreases input.len() - idx,
            {
                if input[idx] == '\'' {
                    if next_is(input, idx, '\'') {
                        idx = idx + 2;
                        continue;
                    }
                    idx = idx + 1;
                    break;
                }
                idx = idx + 1;
            }
            let raw = slice(input, start, idx);
            let n = literals.len();
            let ph = make_placeholder(n);
            let ghost old_lits = strings(literals@);
            let ghost old_pieces = pieces;
            let ghost old_out = out@;
            literals.push(string_of(raw.as_slice()));
            push_all(&mut out, ph.as_slice());
            proof {
                assert(strings(literals@) =~= old_lits.push(raw@));
                assert(out@ == old_out + placeholder(old_lits.len()));
                pieces = pieces.push(cur);
                let lits = strings(literals@);
                assert(lits =~= old_lits.push(raw@));
                lemma_joined_before_congruent(pieces, lits, old_pieces, old_lits, n as nat);
                lemma_joined_before_congruent(
                    pieces,
                    placeholders((n + 1) as nat),
                    old_pieces,
                    placeholders(n as nat),
                    n as nat,
                );
                assert(placeholders((n + 1) as nat)[n as int] == placeholder(n as nat));
                assert(input@.take(idx as int) =~= input@.take(start as int) + raw@);
                cur = Seq::empty();
                assert(input@.take(idx as int) =~= joined_before(pieces, lits, pieces.len()) + cur);
                assert(out@ =~= joined_before(pieces, placeholders(pieces.len()), pieces.len()) + cur);
            }
        } else {
            out.push(c);
            idx = idx + 1;
            proof {
                assert(input@.take(idx as int) =~= input@.take(old_idx).push(c));
                cur = cur.push(c);
            }
        }
        proof {
            assert(input@.take(idx as int) =~= joined_before(pieces, strings(literals@), pieces.len()) + cur);
        }
    }
    proof {
        let lits = strings(literals@);
        let all = pieces.push(cur);
        lemma_joined_before_congruent(all, lits, pieces, lits, pieces.len());
        lemma_joined_before_congruent(
            all,
            placeholders(lits.len()),
            pieces,
            placeholders(pieces.len()),
            pieces.len(),
        );
        assert(input@.take(idx as int) =~= input@);
        assert(input@ == joined(all, lits));
        assert(out@ == joined(all, placeholders(lits.len())));
    }
    (out, literals)
}

/// Puts the literals back in place of their placeholders.
pub fn restore_string_literals(output: &[char], literals: &Vec<String>) -> (r: Vec<char>)
    ensures
        r@ == restored(output@, strings(literals@)),
{
    let mut out = slice(output, 0, output.len());
    assert(out@ =~= output@);
    let mut idx: usize = 0;
    while idx < literals.len()
        invariant
            idx <= literals@.len(),
            out@ == restored(output@, strings(literals@).take(idx as int)),
        decreases literals.len() - idx,
    {
        let ghost prev = strings(literals@).take(idx as int);
        let ph = make_placeholder(idx);
        let raw = chars_of(literals[idx].as_str());
        out = replace_all(out.as_slice(), ph.as_slice(), raw.as_slice());
        proof {
            let next = strings(literals@).take(idx + 1);
            assert(next.drop_last() =~= prev);
            assert(next.last() == literals@[idx as int]@);
        }
        idx = idx + 1;
    }
    assert(strings(literals@).take(idx as int) =~= strings(literals@));
    out
}

} // verus!

