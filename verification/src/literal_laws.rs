//! Why putting the literals back gives the text that was protected: each
//! placeholder occurs exactly once, where its literal stood, as long as the
//! text does not itself hold the placeholders' marker.
use vstd::prelude::*;

use crate::literals::{placeholder, restored};
use crate::text::{decimal, digit_char, has_prefix, occurs_at, replaced};

verus! {

/// The word inside every placeholder.
pub open spec fn marker() -> Seq<char> {
    seq!['_', '_', 'S', 'Q', 'L', 'C', 'H', 'I', 'S', 'E', 'L', '_', 'L', 'I', 'T', 'E', 'R', 'A', 'L', '_']
}

pub open spec fn has_marker(s: Seq<char>) -> bool {
    exists|i: int| occurs_at(s, marker(), i)
}

pub open spec fn is_digit(c: char) -> bool {
    48 <= c as u32 <= 57
}

/// The pieces joined with the fills between them, up to (not including)
/// piece `k`: `P[0] F[0] P[1] F[1] ... P[k-1] F[k-1]`.
pub open spec fn joined_before(pieces: Seq<Seq<char>>, fills: Seq<Seq<char>>, k: nat) -> Seq<char>
    decreases k,
{
    if k == 0 {
        Seq::empty()
    } else {
        joined_before(pieces, fills, (k - 1) as nat) + pieces[k - 1] + fills[k - 1]
    }
}

/// All pieces joined with the fills between them (one piece more than
/// fills).
pub open spec fn joined(pieces: Seq<Seq<char>>, fills: Seq<Seq<char>>) -> Seq<char> {
    joined_before(pieces, fills, fills.len()) + pieces[fills.len() as int]
}

/// The placeholders `0..n`.
pub open spec fn placeholders(n: nat) -> Seq<Seq<char>> {
    Seq::new(n, |i: int| placeholder(i as nat))
}

/// How protecting literals relates a text, its protected form and the
/// literals: both are the same pieces, joined once with the literals and
/// once with the placeholders.
pub open spec fn protects(input: Seq<char>, out: Seq<char>, lits: Seq<Seq<char>>) -> bool {
    exists|pieces: Seq<Seq<char>>| #![trigger joined(pieces, lits)]
        pieces.len() == lits.len() + 1 && input == joined(pieces, lits) && out == joined(
            pieces,
            placeholders(lits.len()),
        )
}

/// Piece `k`, placeholder `k`, piece `k+1`, ... up to the last piece.
pub open spec fn rest_from(pieces: Seq<Seq<char>>, k: nat, n: nat) -> Seq<char>
    decreases n - k,
{
    if k >= n {
        pieces[n as int]
    } else {
        pieces[k as int] + placeholder(k) + rest_from(pieces, k + 1, n)
    }
}

proof fn lemma_marker_chars()
    ensures
        marker().len() == 20,
        forall|i: int| 0 <= i < 20 ==> #[trigger] marker()[i] != '\'' && !is_digit(marker()[i]),
        forall|i: int| 0 <= i < 20 && #[trigger] marker()[i] == 'S' ==> i == 2 || i == 8,
        marker()[0] == '_' && marker()[1] == '_' && marker()[2] == 'S' && marker()[7] == 'I',
{
    let m = marker();
    assert(m[0] == '_' && m[1] == '_' && m[2] == 'S' && m[3] == 'Q' && m[4] == 'L');
    assert(m[5] == 'C' && m[6] == 'H' && m[7] == 'I' && m[8] == 'S' && m[9] == 'E');
    assert(m[10] == 'L' && m[11] == '_' && m[12] == 'L' && m[13] == 'I' && m[14] == 'T');
    assert(m[15] == 'E' && m[16] == 'R' && m[17] == 'A' && m[18] == 'L' && m[19] == '_');
    assert forall|i: int| 0 <= i < 20 implies #[trigger] m[i] != '\'' && !is_digit(m[i]) && (m[i] == 'S'
        ==> i == 2 || i == 8) by {
        if i == 0 {} else if i == 1 {} else if i == 2 {} else if i == 3 {} else if i == 4 {}
        else if i == 5 {} else if i == 6 {} else if i == 7 {} else if i == 8 {} else if i == 9 {}
        else if i == 10 {} else if i == 11 {} else if i == 12 {} else if i == 13 {}
        else if i == 14 {} else if i == 15 {} else if i == 16 {} else if i == 17 {}
        else if i == 18 {} else {}
    }
}

proof fn lemma_decimal_digits(n: nat)
    ensures
        decimal(n).len() >= 1,
        n >= 10 ==> decimal(n).len() >= 2,
        forall|i: int| 0 <= i < decimal(n).len() ==> is_digit(#[trigger] decimal(n)[i]),
    decreases n,
{
    if n >= 10 {
        lemma_decimal_digits(n / 10);
        let d = decimal(n / 10);
        assert(decimal(n) == d.push(digit_char(n % 10)));
        assert forall|i: int| 0 <= i < decimal(n).len() implies is_digit(#[trigger] decimal(n)[i]) by {
            if i < d.len() {
                assert(decimal(n)[i] == d[i]);
            }
        }
    }
}

proof fn lemma_decimal_injective(a: nat, b: nat)
    requires
        decimal(a) == decimal(b),
    ensures
        a == b,
    decreases a,
{
    lemma_decimal_digits(a);
    lemma_decimal_digits(b);
    if a < 10 && b < 10 {
        assert(decimal(a)[0] == digit_char(a));
        assert(decimal(b)[0] == digit_char(b));
        assert(digit_char(a) as u32 == a + 48);
        assert(digit_char(b) as u32 == b + 48);
    } else if a >= 10 && b >= 10 {
        let da = decimal(a / 10);
        let db = decimal(b / 10);
        assert(decimal(a) == da.push(digit_char(a % 10)));
        assert(decimal(b) == db.push(digit_char(b % 10)));
        assert(da == decimal(a).drop_last());
        assert(db == decimal(b).drop_last());
        lemma_decimal_injective(a / 10, b / 10);
        assert(decimal(a).last() == digit_char(a % 10));
        assert(decimal(b).last() == digit_char(b % 10));
        assert(digit_char(a % 10) == digit_char(b % 10));
        assert(digit_char(a % 10) as u32 == (a % 10) + 48);
        assert(digit_char(b % 10) as u32 == (b % 10) + 48);
    } else if a < 10 {
        assert(decimal(a).len() == 1);
    } else {
        assert(decimal(b).len() == 1);
    }
}

/// The shape of a placeholder: a quote, the marker, the number, two
/// underscores and a quote.
pub proof fn lemma_placeholder_shape(n: nat)
    ensures
        placeholder(n) == seq!['\''] + marker() + decimal(n) + seq!['_', '_', '\''],
{
    reveal_strlit("'__SQLCHISEL_LITERAL_");
    reveal_strlit("__'");
    assert("'__SQLCHISEL_LITERAL_"@ =~= seq!['\''] + marker());
    assert("__'"@ =~= seq!['_', '_', '\'']);
}

proof fn lemma_placeholder_chars(n: nat)
    ensures
        placeholder(n).len() == 24 + decimal(n).len(),
        placeholder(n)[0] == '\'',
        placeholder(n)[placeholder(n).len() - 1] == '\'',
        forall|i: int| 1 <= i < 21 ==> #[trigger] placeholder(n)[i] == marker()[i - 1],
        forall|i: int| 21 <= i < 21 + decimal(n).len() ==> #[trigger] placeholder(n)[i] == decimal(n)[i - 21],
        placeholder(n)[21 + decimal(n).len() as int] == '_',
        placeholder(n)[22 + decimal(n).len() as int] == '_',
        forall|i: int| 1 <= i < placeholder(n).len() - 1 ==> #[trigger] placeholder(n)[i] != '\'',
        forall|i: int| 0 <= i < placeholder(n).len() && #[trigger] placeholder(n)[i] == 'S' ==> i == 3 || i == 9,
{
    lemma_placeholder_shape(n);
    lemma_marker_chars();
    lemma_decimal_digits(n);
    let d = decimal(n);
    let p = placeholder(n);
    assert forall|i: int| 1 <= i < p.len() - 1 implies #[trigger] p[i] != '\'' by {
        if i < 21 {
            assert(p[i] == marker()[i - 1]);
        } else if i < 21 + d.len() {
            assert(p[i] == d[i - 21]);
            assert(is_digit(d[i - 21]));
        } else {
            assert(p[i] == '_');
        }
    }
    assert forall|i: int| 0 <= i < p.len() && #[trigger] p[i] == 'S' implies i == 3 || i == 9 by {
        if i == 0 {
        } else if i < 21 {
            assert(p[i] == marker()[i - 1]);
        } else if i < 21 + d.len() {
            assert(p[i] == d[i - 21]);
            assert(is_digit(d[i - 21]));
        } else {
        }
    }
}

/// The marker occurs in a placeholder only right after its opening quote.
proof fn lemma_marker_in_placeholder(n: nat, o: int)
    requires
        occurs_at(placeholder(n), marker(), o),
    ensures
        o == 1,
{
    lemma_placeholder_chars(n);
    lemma_marker_chars();
    let p = placeholder(n);
    assert(p.subrange(o, o + 20) == marker());
    assert(p[o] == marker()[0]);
    assert(p[o + 2] == marker()[2]);
    if o == 0 {
        assert(p[0] == '\'');
    } else if o != 1 {
        assert(o + 2 == 3 || o + 2 == 9);
        assert(o == 7);
        assert(p[8] == marker()[7]);
        assert(p[o + 1] == marker()[1]);
    }
}

/// Two placeholders that both start a text are the same one.
proof fn lemma_placeholder_prefixes(s: Seq<char>, a: nat, b: nat)
    requires
        has_prefix(s, placeholder(a)),
        has_prefix(s, placeholder(b)),
    ensures
        a == b,
{
    lemma_placeholder_chars(a);
    lemma_placeholder_chars(b);
    lemma_decimal_digits(a);
    lemma_decimal_digits(b);
    let pa = placeholder(a);
    let pb = placeholder(b);
    let da = decimal(a);
    let db = decimal(b);
    assert forall|i: int| 0 <= i < pa.len() implies #[trigger] s[i] == pa[i] by {
        assert(s.take(pa.len() as int)[i] == pa[i]);
    }
    assert forall|i: int| 0 <= i < pb.len() implies #[trigger] s[i] == pb[i] by {
        assert(s.take(pb.len() as int)[i] == pb[i]);
    }
    if da.len() < db.len() {
        let i: int = 21 + da.len() as int;
        assert(pa[i] == '_');
        assert(pb[i] == db[i - 21]);
        assert(is_digit(db[i - 21]));
        assert(s[i] == pa[i]);
        assert(s[i] == pb[i]);
    } else if db.len() < da.len() {
        let i: int = 21 + db.len() as int;
        assert(pb[i] == '_');
        assert(pa[i] == da[i - 21]);
        assert(is_digit(da[i - 21]));
        assert(s[i] == pa[i]);
        assert(s[i] == pb[i]);
    } else {
        assert forall|t: int| 0 <= t < da.len() implies da[t] == db[t] by {
            assert(pa[21 + t] == da[t]);
            assert(pb[21 + t] == db[t]);
            assert(s[21 + t] == pa[21 + t]);
            assert(s[21 + t] == pb[21 + t]);
        }
        assert(da =~= db);
        lemma_decimal_injective(a, b);
    }
}

/// A text without the marker keeps that property in its parts.
proof fn lemma_no_marker_part(a: Seq<char>, t: Seq<char>, b: Seq<char>)
    requires
        !has_marker(a + t + b),
    ensures
        !has_marker(t),
{
    if has_marker(t) {
        let i = choose|i: int| occurs_at(t, marker(), i);
        assert((a + t + b).subrange(a.len() + i, a.len() + i + 20) =~= t.subrange(i, i + 20));
        assert(occurs_at(a + t + b, marker(), a.len() + i));
    }
}

/// Where the marker can occur in `X`, placeholder `j`, piece `j+1`, ...:
/// right after the quote of placeholder `j`, or where a later placeholder
/// starts one character before it.
proof fn lemma_marker_places(pieces: Seq<Seq<char>>, x: Seq<char>, j: nat, n: nat, p: int)
    requires
        j < n,
        pieces.len() == n + 1,
        !has_marker(x),
        forall|i: int| j < i <= n ==> !has_marker(#[trigger] pieces[i]),
        occurs_at(x + placeholder(j) + rest_from(pieces, j + 1, n), marker(), p),
    ensures
        p == x.len() + 1 || (p >= 1 && exists|m: nat| j < m < n && has_prefix(
            (x + placeholder(j) + rest_from(pieces, j + 1, n)).skip(p - 1),
            #[trigger] placeholder(m),
        )),
    decreases n - j,
{
    lemma_marker_chars();
    lemma_placeholder_chars(j);
    let ph = placeholder(j);
    let r = rest_from(pieces, j + 1, n);
    let s = x + ph + r;
    let lx = x.len() as int;
    let lp = ph.len() as int;
    assert(s.subrange(p, p + 20) == marker());
    assert forall|t: int| 0 <= t < 20 implies #[trigger] s[p + t] == marker()[t] by {
        assert(s.subrange(p, p + 20)[t] == s[p + t]);
    }
    if p + 20 <= lx {
        assert(x.subrange(p, p + 20) =~= s.subrange(p, p + 20));
        assert(occurs_at(x, marker(), p));
    } else if p < lx {
        let t = lx - p;
        assert(s[p + t] == ph[0]);
        assert(marker()[t] != '\'');
    } else if p < lx + lp {
        let o = p - lx;
        if o + 20 <= lp {
            assert(ph.subrange(o, o + 20) =~= s.subrange(p, p + 20));
            lemma_marker_in_placeholder(j, o);
        } else {
            let t = lp - 1 - o;
            assert(s[p + t] == ph[lp - 1]);
            assert(marker()[t] != '\'');
        }
    } else {
        let q = p - lx - lp;
        assert(r.subrange(q, q + 20) =~= s.subrange(p, p + 20));
        if j + 1 >= n {
            assert(r == pieces[n as int]);
            assert(occurs_at(pieces[n as int], marker(), q));
        } else {
            let x2 = pieces[(j + 1) as int];
            assert(r == x2 + placeholder((j + 1) as nat) + rest_from(pieces, (j + 2) as nat, n));
            assert(occurs_at(r, marker(), q));
            lemma_marker_places(pieces, x2, (j + 1) as nat, n, q);
            assert(s.skip(p - 1) =~= r.skip(q - 1));
            if q == x2.len() + 1 {
                let ph2 = placeholder((j + 1) as nat);
                assert(r.skip(q - 1) =~= ph2 + rest_from(pieces, (j + 2) as nat, n));
                assert((ph2 + rest_from(pieces, (j + 2) as nat, n)).take(ph2.len() as int) =~= ph2);
                assert(has_prefix(s.skip(p - 1), ph2));
            }
        }
    }
}

/// Without occurrences of the pattern, replacing changes nothing.
proof fn lemma_replaced_none(s: Seq<char>, pat: Seq<char>, r: Seq<char>)
    requires
        pat.len() > 0,
        forall|i: int| !occurs_at(s, pat, i),
    ensures
        replaced(s, pat, r) == s,
    decreases s.len(),
{
    if s.len() > 0 {
        assert(!occurs_at(s, pat, 0));
        assert(!has_prefix(s, pat)) by {
            if has_prefix(s, pat) {
                assert(s.subrange(0, pat.len() as int) =~= s.take(pat.len() as int));
            }
        }
        assert forall|i: int| !occurs_at(s.skip(1), pat, i) by {
            if occurs_at(s.skip(1), pat, i) {
                assert(s.subrange(i + 1, i + 1 + pat.len()) =~= s.skip(1).subrange(i, i + pat.len()));
                assert(occurs_at(s, pat, i + 1));
            }
        }
        lemma_replaced_none(s.skip(1), pat, r);
        assert(seq![s[0]] + s.skip(1) =~= s);
    }
}

/// With a single occurrence of the pattern, replacing changes just it.
proof fn lemma_replaced_once(s: Seq<char>, pat: Seq<char>, r: Seq<char>, q: int)
    requires
        pat.len() > 0,
        occurs_at(s, pat, q),
        forall|i: int| i != q ==> !occurs_at(s, pat, i),
    ensures
        replaced(s, pat, r) == s.take(q) + r + s.skip(q + pat.len()),
    decreases s.len(),
{
    if q == 0 {
        assert(has_prefix(s, pat)) by {
            assert(s.subrange(0, pat.len() as int) =~= s.take(pat.len() as int));
        }
        let t = s.skip(pat.len() as int);
        assert forall|i: int| !occurs_at(t, pat, i) by {
            if occurs_at(t, pat, i) {
                assert(s.subrange(i + pat.len(), i + 2 * pat.len()) =~= t.subrange(i, i + pat.len()));
                assert(occurs_at(s, pat, i + pat.len()));
            }
        }
        lemma_replaced_none(t, pat, r);
        assert(s.take(0) =~= Seq::<char>::empty());
        assert(Seq::<char>::empty() + r + t =~= r + t);
    } else {
        assert(!has_prefix(s, pat)) by {
            if has_prefix(s, pat) {
                assert(s.subrange(0, pat.len() as int) =~= s.take(pat.len() as int));
                assert(occurs_at(s, pat, 0));
            }
        }
        let t = s.skip(1);
        assert(t.subrange(q - 1, q - 1 + pat.len()) =~= s.subrange(q, q + pat.len()));
        assert forall|i: int| i != q - 1 implies !occurs_at(t, pat, i) by {
            if occurs_at(t, pat, i) {
                assert(s.subrange(i + 1, i + 1 + pat.len()) =~= t.subrange(i, i + pat.len()));
                assert(occurs_at(s, pat, i + 1));
            }
        }
        lemma_replaced_once(t, pat, r, q - 1);
        assert(seq![s[0]] + (t.take(q - 1) + r + t.skip(q - 1 + pat.len())) =~= s.take(q) + r + s.skip(
            q + pat.len(),
        ));
    }
}

proof fn lemma_joined_before_prefix(pieces: Seq<Seq<char>>, fills: Seq<Seq<char>>, k: nat, m: nat)
    requires
        k <= m,
    ensures
        exists|t: Seq<char>| joined_before(pieces, fills, m) == joined_before(pieces, fills, k) + t,
    decreases m - k,
{
    if k < m {
        lemma_joined_before_prefix(pieces, fills, k, (m - 1) as nat);
        let t = choose|t: Seq<char>| joined_before(pieces, fills, (m - 1) as nat) == joined_before(
            pieces,
            fills,
            k,
        ) + t;
        let t2 = t + pieces[m - 1] + fills[m - 1];
        assert(joined_before(pieces, fills, m) =~= joined_before(pieces, fills, k) + t2);
    } else {
        assert(joined_before(pieces, fills, m) =~= joined_before(pieces, fills, k) + Seq::<char>::empty());
    }
}

proof fn lemma_rest_joined(pieces: Seq<Seq<char>>, k: nat, n: nat)
    requires
        k <= n,
        pieces.len() == n + 1,
    ensures
        joined_before(pieces, placeholders(n), k) + rest_from(pieces, k, n) == joined_before(
            pieces,
            placeholders(n),
            n,
        ) + pieces[n as int],
    decreases n - k,
{
    if k < n {
        lemma_rest_joined(pieces, k + 1, n);
        let phs = placeholders(n);
        assert(phs[k as int] == placeholder(k));
        assert(joined_before(pieces, phs, k + 1) == joined_before(pieces, phs, k) + pieces[k as int] + phs[k as int]);
        assert(joined_before(pieces, phs, k) + rest_from(pieces, k, n) =~= joined_before(pieces, phs, k + 1)
            + rest_from(pieces, k + 1, n));
    }
}

/// The text before placeholder `j` and every later piece are parts of the
/// input, so none holds the marker.
proof fn lemma_parts_clean(pieces: Seq<Seq<char>>, lits: Seq<Seq<char>>, j: nat)
    requires
        pieces.len() == lits.len() + 1,
        j < lits.len(),
        !has_marker(joined(pieces, lits)),
    ensures
        !has_marker(joined_before(pieces, lits, j) + pieces[j as int]),
        forall|i: int| j < i <= lits.len() ==> !has_marker(#[trigger] pieces[i]),
{
    let n = lits.len();
    let input = joined(pieces, lits);
    let k = (j + 1) as nat;
    let x = joined_before(pieces, lits, j) + pieces[j as int];
    lemma_joined_before_prefix(pieces, lits, k, n);
    let t = choose|t: Seq<char>| joined_before(pieces, lits, n) == joined_before(pieces, lits, k) + t;
    assert(joined_before(pieces, lits, k) == x + lits[j as int]);
    assert(Seq::<char>::empty() + x + (lits[j as int] + t + pieces[n as int]) =~= input);
    lemma_no_marker_part(Seq::<char>::empty(), x, lits[j as int] + t + pieces[n as int]);
    assert forall|i: int| j < i <= n implies !has_marker(#[trigger] pieces[i]) by {
        if i < n {
            let i1 = (i + 1) as nat;
            lemma_joined_before_prefix(pieces, lits, i1, n);
            let t2 = choose|t2: Seq<char>| joined_before(pieces, lits, n) == joined_before(pieces, lits, i1) + t2;
            let before = joined_before(pieces, lits, i as nat);
            assert(joined_before(pieces, lits, i1) == before + pieces[i] + lits[i]);
            assert(input =~= before + pieces[i] + (lits[i] + t2 + pieces[n as int]));
            lemma_no_marker_part(before, pieces[i], lits[i] + t2 + pieces[n as int]);
        } else {
            assert(input =~= joined_before(pieces, lits, n) + pieces[n as int] + Seq::<char>::empty());
            lemma_no_marker_part(joined_before(pieces, lits, n), pieces[n as int], Seq::<char>::empty());
        }
    }
}

/// Placeholder `j` occurs exactly once in `x`, placeholder `j`, piece
/// `j+1`, ...: right after `x`.
proof fn lemma_placeholder_once(pieces: Seq<Seq<char>>, x: Seq<char>, j: nat, n: nat)
    requires
        j < n,
        pieces.len() == n + 1,
        !has_marker(x),
        forall|i: int| j < i <= n ==> !has_marker(#[trigger] pieces[i]),
    ensures
        occurs_at(x + placeholder(j) + rest_from(pieces, j + 1, n), placeholder(j), x.len() as int),
        forall|i: int| i != x.len() ==> !#[trigger] occurs_at(
            x + placeholder(j) + rest_from(pieces, j + 1, n),
            placeholder(j),
            i,
        ),
{
    let ph = placeholder(j);
    let s = x + ph + rest_from(pieces, j + 1, n);
    lemma_placeholder_chars(j);
    lemma_marker_chars();
    assert(s.subrange(x.len() as int, (x.len() + ph.len()) as int) =~= ph);
    assert forall|i: int| i != x.len() implies !occurs_at(s, ph, i) by {
        if occurs_at(s, ph, i) {
            assert(s.subrange(i + 1, i + 21) =~= s.subrange(i, i + ph.len()).subrange(1, 21));
            assert(ph.subrange(1, 21) =~= marker());
            assert(occurs_at(s, marker(), i + 1));
            lemma_marker_places(pieces, x, j, n, i + 1);
            if i + 1 != x.len() + 1 {
                let m = choose|m: nat| j < m < n && has_prefix(s.skip(i), #[trigger] placeholder(m));
                assert(has_prefix(s.skip(i), ph)) by {
                    assert(s.skip(i).take(ph.len() as int) =~= s.subrange(i, i + ph.len()));
                }
                lemma_placeholder_prefixes(s.skip(i), m, j);
            }
        }
    }
}

/// After putting back the first `k` literals, the text is the first `k`
/// literals joined in, followed by placeholder `k`, piece `k+1`, ...
proof fn lemma_restored_upto(pieces: Seq<Seq<char>>, lits: Seq<Seq<char>>, k: nat)
    requires
        pieces.len() == lits.len() + 1,
        k <= lits.len(),
        !has_marker(joined(pieces, lits)),
    ensures
        restored(joined(pieces, placeholders(lits.len())), lits.take(k as int)) == joined_before(
            pieces,
            lits,
            k,
        ) + rest_from(pieces, k, lits.len()),
    decreases k,
{
    let n = lits.len();
    if k == 0 {
        lemma_rest_joined(pieces, 0, n);
        assert(lits.take(0) =~= Seq::<Seq<char>>::empty());
        assert(joined_before(pieces, placeholders(n), 0) + rest_from(pieces, 0, n) =~= rest_from(pieces, 0, n));
        assert(joined_before(pieces, lits, 0) + rest_from(pieces, 0, n) =~= rest_from(pieces, 0, n));
    } else {
        let j = (k - 1) as nat;
        lemma_restored_upto(pieces, lits, j);
        assert(lits.take(k as int).drop_last() =~= lits.take(j as int));
        assert(lits.take(k as int).last() == lits[j as int]);
        let prev = restored(joined(pieces, placeholders(n)), lits.take(j as int));
        let x = joined_before(pieces, lits, j) + pieces[j as int];
        let ph = placeholder(j);
        let r = rest_from(pieces, j + 1, n);
        assert(rest_from(pieces, j, n) == pieces[j as int] + ph + r);
        assert(prev =~= x + ph + r);
        lemma_parts_clean(pieces, lits, j);
        lemma_placeholder_once(pieces, x, j, n);
        lemma_placeholder_chars(j);
        lemma_replaced_once(prev, ph, lits[j as int], x.len() as int);
        assert(prev.take(x.len() as int) =~= x);
        assert(prev.skip((x.len() + ph.len()) as int) =~= r);
        assert(joined_before(pieces, lits, k) == x + lits[j as int]);
        assert(joined_before(pieces, lits, k) + rest_from(pieces, k, n) =~= x + lits[j as int] + r);
    }
}

/// Putting the literals back into the protected text gives the original
/// text, as long as the text does not hold the placeholders' marker
/// (`__SQLCHISEL_LITERAL_`).
pub proof fn law_literals_round_trip(input: Seq<char>, out: Seq<char>, lits: Seq<Seq<char>>)
    requires
        protects(input, out, lits),
        !has_marker(input),
    ensures
        restored(out, lits) == input,
{
    let pieces = choose|pieces: Seq<Seq<char>>| #![trigger joined(pieces, lits)]
        pieces.len() == lits.len() + 1 && input == joined(pieces, lits) && out == joined(
            pieces,
            placeholders(lits.len()),
        );
    lemma_restored_upto(pieces, lits, lits.len());
    assert(lits.take(lits.len() as int) =~= lits);
}

} // verus!
