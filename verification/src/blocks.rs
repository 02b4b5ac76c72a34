use vstd::prelude::*;

use crate::config::FormatterConfig;
use crate::doc::{
    docs_view, doc_view, lemma_docs_view, lemma_docs_view_concat, lemma_docs_view_push, Doc, DocV,
};
use crate::keywords::{keyword_cased, keyword_doc, kw};
use crate::text::{
    chars_of, contains_str, ends_with_str, has_prefix, lower, lower_of, push_char, slice, starts_with,
    starts_with_str, string_of, trim, trimmed,
};

verus! {

broadcast use lemma_docs_view_push, lemma_docs_view;

/// Items with a separator between neighbours.
pub open spec fn sep_list(items: Seq<DocV>, sep: Seq<DocV>) -> Seq<DocV>
    decreases items.len(),
{
    if items.len() == 0 {
        Seq::empty()
    } else if items.len() == 1 {
        seq![items[0]]
    } else {
        sep_list(items.drop_last(), sep) + sep + seq![items.last()]
    }
}

/// The text documents of the given strings.
pub open spec fn texts(items: Seq<String>) -> Seq<DocV> {
    items.map_values(|s: String| DocV::Text(s@))
}

pub open spec fn tx(s: &str) -> DocV {
    DocV::Text(s@)
}

/// The break placed after each comma of a list.
#[derive(Clone, Copy)]
pub enum Sep {
    Line,
    SoftLine,
    Space,
}

pub open spec fn sep_view(s: Sep) -> DocV {
    match s {
        Sep::Line => DocV::Line,
        Sep::SoftLine => DocV::SoftLine,
        Sep::Space => DocV::Space,
    }
}

pub open spec fn comma_sep(s: Sep) -> Seq<DocV> {
    seq![tx(","), sep_view(s)]
}

/// A document holding a copy of a literal text.
pub fn lit(s: &str) -> (d: Doc)
    ensures
        d@ == tx(s),
{
    Doc::Text(s.to_owned())
}

pub fn sep_doc(s: Sep) -> (d: Doc)
    ensures
        d@ == sep_view(s),
{
    match s {
        Sep::Line => Doc::Line,
        Sep::SoftLine => Doc::SoftLine,
        Sep::Space => Doc::Space,
    }
}

/// Appends documents to a list.
pub fn push_docs(v: &mut Vec<Doc>, mut more: Vec<Doc>)
    ensures
        docs_view(final(v)@) == docs_view(old(v)@) + docs_view(more@),
{
    let ghost m = more@;
    v.append(&mut more);
    proof {
        lemma_docs_view_concat(old(v)@, m);
    }
}

/// The items as texts with a comma and the given break between neighbours.
pub fn comma_joined(items: &Vec<String>, s: Sep) -> (v: Vec<Doc>)
    ensures
        docs_view(v@) == sep_list(texts(items@), comma_sep(s)),
{
    let mut v: Vec<Doc> = Vec::new();
    let mut i: usize = 0;
    while i < items.len()
        invariant
            i <= items@.len(),
            docs_view(v@) == sep_list(texts(items@.take(i as int)), comma_sep(s)),
        decreases items.len() - i,
    {
        let ghost pre = docs_view(v@);
        let ghost tk = texts(items@.take(i + 1));
        assert(texts(items@.take(i + 1)).drop_last() =~= texts(items@.take(i as int)));
        assert(tk.last() == DocV::Text(items@[i as int]@));
        if i > 0 {
            v.push(lit(","));
            v.push(sep_doc(s));
        }
        v.push(Doc::Text(items[i].clone()));
        proof {
            if i == 0 {
                assert(docs_view(v@) =~= seq![DocV::Text(items@[0]@)]);
                assert(tk.len() == 1);
            } else {
                assert(docs_view(v@) =~= pre + comma_sep(s) + seq![DocV::Text(items@[i as int]@)]);
            }
        }
        i = i + 1;
    }
    assert(items@.take(i as int) =~= items@);
    v
}

/// `join_comma_lines`: the items one per line, comma-terminated.
pub fn join_comma_lines(items: &Vec<String>) -> (d: Doc)
    ensures
        d@ == DocV::Group(sep_list(texts(items@), comma_sep(Sep::Line))),
{
    Doc::Group(comma_joined(items, Sep::Line))
}

pub open spec fn parenthesized_inline(items: Seq<String>) -> DocV {
    DocV::Group(seq![tx("(")] + sep_list(texts(items), comma_sep(Sep::Space)) + seq![tx(")")])
}

/// The items in parentheses on one line: `(a, b, c)`.
pub fn format_parenthesized_inline(items: &Vec<String>) -> (d: Doc)
    ensures
        d@ == parenthesized_inline(items@),
{
    let mut parts: Vec<Doc> = Vec::new();
    parts.push(lit("("));
    let body = comma_joined(items, Sep::Space);
    push_docs(&mut parts, body);
    parts.push(lit(")"));
    assert(docs_view(parts@) =~= seq![tx("(")] + sep_list(texts(items@), comma_sep(Sep::Space))
        + seq![tx(")")]);
    Doc::Group(parts)
}

pub open spec fn parenthesized_block(items: Seq<String>) -> DocV {
    DocV::Group(
        seq![
            tx("("),
            DocV::Line,
            DocV::Indent(Box::new(DocV::Group(sep_list(texts(items), comma_sep(Sep::Line))))),
            DocV::Line,
            tx(")"),
        ],
    )
}

/// The items in parentheses, one per indented line.
pub fn format_parenthesized_block(items: &Vec<String>) -> (d: Doc)
    ensures
        d@ == parenthesized_block(items@),
{
    let parts = vec![
        lit("("),
        Doc::Line,
        Doc::Indent(Box::new(join_comma_lines(items))),
        Doc::Line,
        lit(")"),
    ];
    assert(docs_view(parts@) =~= seq![
        tx("("),
        DocV::Line,
        DocV::Indent(Box::new(DocV::Group(sep_list(texts(items@), comma_sep(Sep::Line))))),
        DocV::Line,
        tx(")"),
    ]);
    Doc::Group(parts)
}

/// The total length of the texts.
pub open spec fn total_len(items: Seq<String>) -> nat
    decreases items.len(),
{
    if items.len() == 0 {
        0
    } else {
        total_len(items.drop_last()) + items.last()@.len()
    }
}

/// The longest text's length.
pub open spec fn max_len(items: Seq<String>) -> nat
    decreases items.len(),
{
    if items.len() == 0 {
        0
    } else if max_len(items.drop_last()) >= items.last()@.len() {
        max_len(items.drop_last())
    } else {
        items.last()@.len()
    }
}

/// The total and the maximum length of the texts, `None` when the total
/// exceeds the machine word.
pub fn lengths(items: &Vec<String>) -> (r: Option<(usize, usize)>)
    ensures
        total_len(items@) <= usize::MAX ==> r == Some(
            (total_len(items@) as usize, max_len(items@) as usize),
        ),
        total_len(items@) > usize::MAX ==> r is None,
        max_len(items@) <= total_len(items@),
{
    proof {
        lemma_max_le_total(items@);
    }
    let mut total: usize = 0;
    let mut mx: usize = 0;
    let mut i: usize = 0;
    while i < items.len()
        invariant
            i <= items@.len(),
            total == total_len(items@.take(i as int)),
            mx == max_len(items@.take(i as int)),
            max_len(items@.take(i as int)) <= total_len(items@.take(i as int)),
        decreases items.len() - i,
    {
        assert(items@.take(i + 1).drop_last() =~= items@.take(i as int));
        let n = items[i].as_str().unicode_len();
        if n > usize::MAX - total {
            proof {
                lemma_total_len_prefix(items@, i + 1);
                lemma_max_le_total(items@);
            }
            return None;
        }
        total = total + n;
        if n > mx {
            mx = n;
        }
        i = i + 1;
    }
    assert(items@.take(i as int) =~= items@);
    Some((total, mx))
}

proof fn lemma_max_le_total(items: Seq<String>)
    ensures
        max_len(items) <= total_len(items),
    decreases items.len(),
{
    if items.len() > 0 {
        lemma_max_le_total(items.drop_last());
    }
}

proof fn lemma_total_len_prefix(items: Seq<String>, i: int)
    requires
        0 <= i <= items.len(),
    ensures
        total_len(items.take(i)) <= total_len(items),
    decreases items.len(),
{
    if i < items.len() {
        assert(items.drop_last().take(i) =~= items.take(i));
        lemma_total_len_prefix(items.drop_last(), i);
    } else {
        assert(items.take(i) =~= items);
    }
}

/// The one-line length of `LABEL (a, b, c)`.
pub open spec fn paren_clause_inline_len(label: Seq<char>, items: Seq<String>) -> int {
    label.len() + 3 + total_len(items) + (if items.len() >= 1 {
        (items.len() - 1) * 2
    } else {
        0
    })
}

pub open spec fn spec_parenthesized_clause(
    label: Seq<char>,
    items: Seq<String>,
    cfg: FormatterConfig,
    prefer_multiline: bool,
) -> DocV {
    let k = DocV::Text(keyword_cased(label, cfg.keyword_case));
    if items.len() == 0 {
        DocV::Group(seq![k, DocV::Space, tx("()")])
    } else if !(prefer_multiline && items.len() > 1) && paren_clause_inline_len(label, items)
        <= cfg.line_length {
        DocV::Group(seq![k, DocV::Space, parenthesized_inline(items)])
    } else {
        DocV::Group(
            seq![
                k,
                DocV::Space,
                tx("("),
                DocV::Line,
                DocV::Indent(Box::new(DocV::Group(sep_list(texts(items), comma_sep(Sep::Line))))),
                DocV::Line,
                tx(")"),
            ],
        )
    }
}

/// `LABEL (a, b)` on one line when it fits and is not to be broken,
/// otherwise the items one per indented line inside the parentheses.
pub fn format_parenthesized_clause(
    label: &str,
    items: &Vec<String>,
    cfg: &FormatterConfig,
    prefer_multiline: bool,
) -> (d: Doc)
    ensures
        d@ == spec_parenthesized_clause(label@, items@, *cfg, prefer_multiline),
{
    if items.len() == 0 {
        let parts = vec![keyword_doc(cfg, label), Doc::Space, lit("()")];
        assert(docs_view(parts@) =~= seq![kw(*cfg, label@), DocV::Space, tx("()")]);
        return Doc::Group(parts);
    }
    let label_len = label.unicode_len();
    let fits = match lengths(items) {
        Some((total, _)) => {
            let seps = (items.len() - 1) as u128 * 2;
            let inline_len = label_len as u128 + 3 + total as u128 + seps;
            inline_len <= cfg.line_length as u128
        },
        None => false,
    };
    let force_break = prefer_multiline && items.len() > 1;
    if !force_break && fits {
        let parts = vec![keyword_doc(cfg, label), Doc::Space, format_parenthesized_inline(items)];
        assert(docs_view(parts@) =~= seq![
            kw(*cfg, label@),
            DocV::Space,
            parenthesized_inline(items@),
        ]);
        return Doc::Group(parts);
    }
    let parts = vec![
        keyword_doc(cfg, label),
        Doc::Space,
        lit("("),
        Doc::Line,
        Doc::Indent(Box::new(join_comma_lines(items))),
        Doc::Line,
        lit(")"),
    ];
    assert(docs_view(parts@) =~= seq![
        kw(*cfg, label@),
        DocV::Space,
        tx("("),
        DocV::Line,
        DocV::Indent(Box::new(DocV::Group(sep_list(texts(items@), comma_sep(Sep::Line))))),
        DocV::Line,
        tx(")"),
    ]);
    Doc::Group(parts)
}


/// The break threshold of a comma list: seven tenths of the line length.
pub open spec fn seven_tenths(ll: int) -> int {
    ll * 7 / 10
}

pub open spec fn comma_clause_inline_len(label: Seq<char>, items: Seq<String>) -> int {
    label.len() + 1 + total_len(items) + (if items.len() >= 1 {
        (items.len() - 1) * 2
    } else {
        0
    })
}

/// A comma list is put one item per line when its one-line form is longer
/// than seven tenths of the line, has more than three items, or has an item
/// longer than a third of the line.
pub open spec fn comma_clause_per_line(label: Seq<char>, items: Seq<String>, ll: int) -> bool {
    comma_clause_inline_len(label, items) > seven_tenths(ll) || items.len() > 3 || max_len(items)
        > ll / 3
}

pub open spec fn spec_comma_clause(label: Seq<char>, items: Seq<String>, cfg: FormatterConfig) -> DocV {
    let brk = if comma_clause_per_line(label, items, cfg.line_length as int) {
        Sep::Line
    } else {
        Sep::SoftLine
    };
    DocV::Group(
        seq![
            DocV::Text(keyword_cased(label, cfg.keyword_case)),
            DocV::Space,
            DocV::Indent(Box::new(DocV::Group(sep_list(texts(items), comma_sep(brk))))),
        ],
    )
}

fn seven_tenths_of(ll: usize) -> (r: usize)
    ensures
        r == seven_tenths(ll as int),
{
    let q = ll / 10;
    let m = ll % 10;
    assert(ll == q * 10 + m);
    assert(ll * 7 / 10 == q * 7 + m * 7 / 10) by (nonlinear_arith)
        requires
            ll == q * 10 + m,
            0 <= m < 10,
    ;
    q * 7 + m * 7 / 10
}

/// `LABEL a, b, c`, the items breaking onto indented lines as a group, or
/// one per line when the list is long.
pub fn format_comma_clause(label: &str, items: &Vec<String>, cfg: &FormatterConfig) -> (d: Doc)
    ensures
        d@ == spec_comma_clause(label@, items@, *cfg),
{
    let label_len = label.unicode_len();
    let threshold = seven_tenths_of(cfg.line_length);
    let per_line = match lengths(items) {
        Some((total, mx)) => {
            let seps: u128 = if items.len() >= 1 {
                (items.len() - 1) as u128 * 2
            } else {
                0
            };
            let inline_len = label_len as u128 + 1 + total as u128 + seps;
            inline_len > threshold as u128 || items.len() > 3 || mx > cfg.line_length / 3
        },
        None => true,
    };
    let brk = if per_line {
        Sep::Line
    } else {
        Sep::SoftLine
    };
    let joined = comma_joined(items, brk);
    let list = Doc::Group(joined);
    let ghost lv = doc_view(list);
    assert(lv == DocV::Group(sep_list(texts(items@), comma_sep(brk))));
    let k = keyword_doc(cfg, label);
    let parts = vec![k, Doc::Space, Doc::Indent(Box::new(list))];
    assert(docs_view(parts@) =~= seq![
        kw(*cfg, label@),
        DocV::Space,
        DocV::Indent(Box::new(DocV::Group(sep_list(texts(items@), comma_sep(brk))))),
    ]);
    Doc::Group(parts)
}

pub open spec fn spec_comma_clause_per_line(label: Seq<char>, items: Seq<String>, cfg: FormatterConfig) -> DocV {
    DocV::Group(
        seq![
            DocV::Text(keyword_cased(label, cfg.keyword_case)),
            DocV::Line,
            DocV::Indent(Box::new(DocV::Group(sep_list(texts(items), comma_sep(Sep::Line))))),
        ],
    )
}

/// `LABEL` followed by the items, one per indented line.
pub fn format_comma_clause_per_line(label: &str, items: &Vec<String>, cfg: &FormatterConfig) -> (d: Doc)
    ensures
        d@ == spec_comma_clause_per_line(label@, items@, *cfg),
{
    let list = join_comma_lines(items);
    let parts = vec![keyword_doc(cfg, label), Doc::Line, Doc::Indent(Box::new(list))];
    assert(docs_view(parts@) =~= seq![
        kw(*cfg, label@),
        DocV::Line,
        DocV::Indent(Box::new(DocV::Group(sep_list(texts(items@), comma_sep(Sep::Line))))),
    ]);
    Doc::Group(parts)
}

/// The documents with a comma and the given break between neighbours.
pub fn comma_joined_docs(items: Vec<Doc>, s: Sep) -> (v: Vec<Doc>)
    ensures
        docs_view(v@) == sep_list(docs_view(items@), comma_sep(s)),
{
    let ghost orig = items@;
    assert(orig.len() == items.len());
    let mut items = items;
    let mut v: Vec<Doc> = Vec::new();
    let mut k: usize = 0;
    while items.len() > 0
        invariant
            k + items@.len() == orig.len(),
            orig.len() <= usize::MAX,
            items@ == orig.skip(k as int),
            docs_view(v@) == sep_list(docs_view(orig.take(k as int)), comma_sep(s)),
        decreases items.len(),
    {
        let ghost pre = docs_view(v@);
        let d = items.remove(0);
        assert(d == orig[k as int]);
        assert(orig.take(k + 1).drop_last() =~= orig.take(k as int));
        assert(docs_view(orig.take(k + 1)).drop_last() =~= docs_view(orig.take(k as int)));
        assert(docs_view(orig.take(k + 1)).last() == doc_view(orig[k as int]));
        if k > 0 {
            v.push(lit(","));
            v.push(sep_doc(s));
        }
        v.push(d);
        proof {
            if k == 0 {
                assert(docs_view(v@) =~= seq![doc_view(orig[0])]);
            } else {
                assert(docs_view(v@) =~= pre + comma_sep(s) + seq![doc_view(orig[k as int])]);
            }
        }
        k = k + 1;
        assert(items@ =~= orig.skip(k as int));
    }
    assert(orig.take(k as int) =~= orig);
    v
}

/// The documents with the given break, and nothing else, between
/// neighbours.
pub fn separated_docs(items: Vec<Doc>, s: Sep) -> (v: Vec<Doc>)
    ensures
        docs_view(v@) == sep_list(docs_view(items@), seq![sep_view(s)]),
{
    let ghost orig = items@;
    assert(orig.len() == items.len());
    let mut items = items;
    let mut v: Vec<Doc> = Vec::new();
    let mut k: usize = 0;
    while items.len() > 0
        invariant
            k + items@.len() == orig.len(),
            orig.len() <= usize::MAX,
            items@ == orig.skip(k as int),
            docs_view(v@) == sep_list(docs_view(orig.take(k as int)), seq![sep_view(s)]),
        decreases items.len(),
    {
        let ghost pre = docs_view(v@);
        let d = items.remove(0);
        assert(d == orig[k as int]);
        assert(orig.take(k + 1).drop_last() =~= orig.take(k as int));
        assert(docs_view(orig.take(k + 1)).drop_last() =~= docs_view(orig.take(k as int)));
        assert(docs_view(orig.take(k + 1)).last() == doc_view(orig[k as int]));
        if k > 0 {
            v.push(sep_doc(s));
        }
        v.push(d);
        proof {
            if k == 0 {
                assert(docs_view(v@) =~= seq![doc_view(orig[0])]);
            } else {
                assert(docs_view(v@) =~= pre + seq![sep_view(s)] + seq![doc_view(orig[k as int])]);
            }
        }
        k = k + 1;
        assert(items@ =~= orig.skip(k as int));
    }
    assert(orig.take(k as int) =~= orig);
    v
}

pub open spec fn spec_window_clause(label: Seq<char>, items: Seq<DocV>, cfg: FormatterConfig) -> DocV {
    if items.len() == 0 {
        DocV::Text(Seq::empty())
    } else {
        DocV::Group(
            seq![
                DocV::Text(keyword_cased(label, cfg.keyword_case)),
                DocV::Space,
                DocV::Group(sep_list(items, comma_sep(Sep::SoftLine))),
            ],
        )
    }
}

/// A window-specification clause: `LABEL a, b`, breaking softly at commas;
/// an empty text when there are no items.
pub fn format_window_clause(label: &str, items: Vec<Doc>, cfg: &FormatterConfig) -> (d: Doc)
    ensures
        d@ == spec_window_clause(label@, docs_view(items@), *cfg),
{
    if items.len() == 0 {
        return Doc::Text(String::new());
    }
    let ghost iv = docs_view(items@);
    let list = Doc::Group(comma_joined_docs(items, Sep::SoftLine));
    let parts = vec![keyword_doc(cfg, label), Doc::Space, list];
    assert(docs_view(parts@) =~= seq![
        kw(*cfg, label@),
        DocV::Space,
        DocV::Group(sep_list(iv, comma_sep(Sep::SoftLine))),
    ]);
    Doc::Group(parts)
}

/// The pieces of a text between the occurrences of a character.
pub open spec fn split_on(s: Seq<char>, c: char) -> Seq<Seq<char>>
    decreases s.len(),
{
    if s.len() == 0 {
        seq![Seq::empty()]
    } else if s.last() == c {
        split_on(s.drop_last(), c).push(Seq::empty())
    } else {
        let p = split_on(s.drop_last(), c);
        p.update(p.len() - 1, p.last().push(s.last()))
    }
}

pub proof fn lemma_split_on_nonempty(s: Seq<char>, c: char)
    ensures
        split_on(s, c).len() >= 1,
    decreases s.len(),
{
    if s.len() > 0 {
        lemma_split_on_nonempty(s.drop_last(), c);
    }
}

/// The trimmed non-empty pieces of a sequence of texts.
pub open spec fn nonempty_trimmed(ps: Seq<Seq<char>>) -> Seq<Seq<char>>
    decreases ps.len(),
{
    if ps.len() == 0 {
        Seq::empty()
    } else if trimmed(ps.last()).len() == 0 {
        nonempty_trimmed(ps.drop_last())
    } else {
        nonempty_trimmed(ps.drop_last()).push(trimmed(ps.last()))
    }
}

/// The trimmed, non-empty pieces between commas.
pub open spec fn comma_pieces(s: Seq<char>) -> Seq<Seq<char>> {
    nonempty_trimmed(split_on(s, ','))
}

pub open spec fn strings_view(v: Seq<String>) -> Seq<Seq<char>> {
    v.map_values(|s: String| s@)
}

/// Splits at every comma, trims the pieces and drops the empty ones.
pub fn split_comma_pieces(s: &[char]) -> (r: Vec<String>)
    ensures
        strings_view(r@) == comma_pieces(s@),
{
    let mut pieces: Vec<Vec<char>> = Vec::new();
    let mut cur: Vec<char> = Vec::new();
    let mut i: usize = 0;
    while i < s.len()
        invariant
            i <= s@.len(),
            split_on(s@.take(i as int), ',') == pieces@.map_values(|p: Vec<char>| p@).push(cur@),
        decreases s.len() - i,
    {
        let ghost pv = pieces@.map_values(|p: Vec<char>| p@);
        assert(s@.take(i + 1).drop_last() =~= s@.take(i as int));
        if s[i] == ',' {
            pieces.push(cur);
            cur = Vec::new();
            assert(pieces@.map_values(|p: Vec<char>| p@) =~= pv.push(split_on(s@.take(i as int), ',').last()));
            assert(split_on(s@.take(i + 1), ',') =~= pieces@.map_values(|p: Vec<char>| p@).push(cur@));
        } else {
            cur.push(s[i]);
            assert(split_on(s@.take(i + 1), ',') =~= pieces@.map_values(|p: Vec<char>| p@).push(cur@));
        }
        i = i + 1;
    }
    assert(s@.take(i as int) =~= s@);
    pieces.push(cur);
    let ghost all = pieces@.map_values(|p: Vec<char>| p@);
    assert(all =~= split_on(s@, ','));
    let mut r: Vec<String> = Vec::new();
    let mut j: usize = 0;
    while j < pieces.len()
        invariant
            j <= pieces@.len(),
            all == pieces@.map_values(|p: Vec<char>| p@),
            strings_view(r@) == nonempty_trimmed(all.take(j as int)),
        decreases pieces.len() - j,
    {
        assert(all.take(j + 1).drop_last() =~= all.take(j as int));
        assert(all.take(j + 1).last() == pieces@[j as int]@);
        let t = trim(pieces[j].as_slice());
        if t.len() > 0 {
            let ghost before = strings_view(r@);
            r.push(string_of(t.as_slice()));
            assert(strings_view(r@) =~= before.push(t@));
        }
        j = j + 1;
    }
    assert(all.take(j as int) =~= all);
    r
}

/// Whether the text has more characters than half the line.
pub open spec fn needs_option_break(rest: Seq<char>, cfg: FormatterConfig) -> bool {
    rest.len() > cfg.line_length / 2
}

pub open spec fn spec_option_content(rest: Seq<char>, cfg: FormatterConfig) -> DocV {
    let needs_break = needs_option_break(rest, cfg);
    let inner_parts = comma_pieces(rest.subrange(1, rest.len() - 1));
    let parts = comma_pieces(rest);
    if rest.len() >= 2 && rest[0] == '(' && rest.last() == ')' && inner_parts.len() > 1
        && needs_break {
        DocV::Group(
            seq![
                tx("("),
                DocV::Line,
                DocV::Indent(
                    Box::new(
                        DocV::Group(
                            sep_list(
                                inner_parts.map_values(|p: Seq<char>| DocV::Text(p)),
                                comma_sep(Sep::Line),
                            ),
                        ),
                    ),
                ),
                DocV::Line,
                tx(")"),
            ],
        )
    } else if needs_break && parts.len() > 1 {
        DocV::Group(sep_list(parts.map_values(|p: Seq<char>| DocV::Text(p)), comma_sep(Sep::Line)))
    } else {
        DocV::Text(rest)
    }
}

/// Option text: a parenthesized, comma-separated list is broken one item per
/// line when the text is longer than half the line; so is a bare list.
pub fn render_option_content(rest: &[char], cfg: &FormatterConfig) -> (d: Doc)
    ensures
        d@ == spec_option_content(rest@, *cfg),
{
    let needs_break = rest.len() > cfg.line_length / 2;
    if rest.len() >= 2 && rest[0] == '(' && rest[rest.len() - 1] == ')' {
        let inner = slice(rest, 1, rest.len() - 1);
        let parts = split_comma_pieces(inner.as_slice());
        if parts.len() > 1 && needs_break {
            let list = Doc::Group(comma_joined(&parts, Sep::Line));
            assert(texts(parts@) =~= comma_pieces(rest@.subrange(1, rest@.len() - 1)).map_values(
                |p: Seq<char>| DocV::Text(p),
            ));
            let ghost lv = doc_view(list);
            let docs = vec![lit("("), Doc::Line, Doc::Indent(Box::new(list)), Doc::Line, lit(")")];
            assert(docs_view(docs@) =~= seq![
                tx("("),
                DocV::Line,
                DocV::Indent(Box::new(lv)),
                DocV::Line,
                tx(")"),
            ]);
            return Doc::Group(docs);
        }
    }
    proof {
        if rest@.len() >= 2 && rest@[0] == '(' && rest@.last() == ')' {
            assert(rest@.last() == rest@[rest@.len() - 1]);
        }
    }
    if needs_break && contains_str(rest, ",") {
        let parts = split_comma_pieces(rest);
        if parts.len() > 1 {
            assert(texts(parts@) =~= comma_pieces(rest@).map_values(|p: Seq<char>| DocV::Text(p)));
            return Doc::Group(comma_joined(&parts, Sep::Line));
        }
    }
    proof {
        if needs_break && comma_pieces(rest@).len() > 1 {
            lemma_pieces_need_comma(rest@);
        }
    }
    Doc::Text(string_of(rest))
}

proof fn lemma_split_on_no_char(s: Seq<char>, c: char)
    requires
        forall|j: int| 0 <= j < s.len() ==> s[j] != c,
    ensures
        split_on(s, c) == seq![s],
    decreases s.len(),
{
    if s.len() > 0 {
        lemma_split_on_no_char(s.drop_last(), c);
        assert(s.drop_last().push(s.last()) =~= s);
        assert(split_on(s, c) =~= seq![s]);
    } else {
        assert(s =~= Seq::<char>::empty());
        assert(split_on(s, c) =~= seq![s]);
    }
}

proof fn lemma_nonempty_trimmed_len(ps: Seq<Seq<char>>)
    ensures
        nonempty_trimmed(ps).len() <= ps.len(),
    decreases ps.len(),
{
    if ps.len() > 0 {
        lemma_nonempty_trimmed_len(ps.drop_last());
    }
}

/// More than one non-empty piece between commas means there is a comma.
proof fn lemma_pieces_need_comma(s: Seq<char>)
    requires
        comma_pieces(s).len() > 1,
    ensures
        exists|j: int| crate::text::occurs_at(s, ",".view(), j),
{
    reveal_strlit(",");
    if forall|j: int| 0 <= j < s.len() ==> s[j] != ',' {
        lemma_split_on_no_char(s, ',');
        lemma_nonempty_trimmed_len(seq![s]);
        assert(comma_pieces(s).len() <= 1);
    } else {
        let j = choose|j: int| 0 <= j < s.len() && s[j] == ',';
        assert(s.subrange(j, j + 1) =~= ",".view());
        assert(crate::text::occurs_at(s, ",".view(), j));
    }
}

pub open spec fn spec_option_block(keyword: Seq<char>, raw: Seq<char>, cfg: FormatterConfig) -> DocV {
    let t = trimmed(raw);
    let rest = if has_prefix(lower_of(t), lower_of(keyword)) {
        trimmed(t.skip(if keyword.len() <= t.len() { keyword.len() as int } else { t.len() as int }))
    } else {
        t
    };
    if rest.len() == 0 {
        DocV::Text(keyword_cased(keyword, cfg.keyword_case))
    } else {
        DocV::Group(
            seq![
                DocV::Text(keyword_cased(keyword, cfg.keyword_case)),
                DocV::Space,
                spec_option_content(rest, cfg),
            ],
        )
    }
}

/// `KEYWORD options`: the keyword (dropped from the front of the raw text
/// when present, ignoring case) followed by the rendered options.
pub fn format_option_block(keyword: &str, raw: &[char], cfg: &FormatterConfig) -> (d: Doc)
    ensures
        d@ == spec_option_block(keyword@, raw@, *cfg),
{
    let t = trim(raw);
    let lt = lower(t.as_slice());
    let kc = chars_of(keyword);
    let lk = lower(kc.as_slice());
    let rest = if starts_with(lt.as_slice(), lk.as_slice()) {
        let k = if kc.len() <= t.len() {
            kc.len()
        } else {
            t.len()
        };
        let tail = slice(t.as_slice(), k, t.len());
        assert(tail@ =~= t@.skip(k as int));
        trim(tail.as_slice())
    } else {
        t
    };
    if rest.len() == 0 {
        return keyword_doc(cfg, keyword);
    }
    let content = render_option_content(rest.as_slice(), cfg);
    let ghost cv = doc_view(content);
    let parts = vec![keyword_doc(cfg, keyword), Doc::Space, content];
    assert(docs_view(parts@) =~= seq![kw(*cfg, keyword@), DocV::Space, cv]);
    Doc::Group(parts)
}

/// The pieces of a text between its top-level commas, scanned from
/// position `i` with the pieces found so far, the piece being read, the
/// parenthesis depth and whether a single- or double-quoted string is open.
/// A doubled quote stays in the piece; empty pieces are dropped; each piece
/// is trimmed.
pub open spec fn commas_scan(
    input: Seq<char>,
    i: int,
    parts: Seq<Seq<char>>,
    cur: Seq<char>,
    depth: nat,
    in_single: bool,
    in_double: bool,
) -> Seq<Seq<char>>
    decreases input.len() - i,
{
    if i >= input.len() || i < 0 {
        let tail = trimmed(cur);
        if tail.len() > 0 {
            parts.push(tail)
        } else {
            parts
        }
    } else {
        let ch = input[i];
        let j = i + 1;
        if ch == '\'' && !in_double {
            if j < input.len() && input[j] == '\'' {
                commas_scan(input, j + 1, parts, cur + seq![ch, input[j]], depth, in_single, in_double)
            } else {
                commas_scan(input, j, parts, cur.push(ch), depth, !in_single, in_double)
            }
        } else if ch == '"' && !in_single {
            if j < input.len() && input[j] == '"' {
                commas_scan(input, j + 1, parts, cur + seq![ch, input[j]], depth, in_single, in_double)
            } else {
                commas_scan(input, j, parts, cur.push(ch), depth, in_single, !in_double)
            }
        } else if ch == '(' && !in_single && !in_double {
            commas_scan(input, j, parts, cur.push(ch), depth + 1, in_single, in_double)
        } else if ch == ')' && !in_single && !in_double {
            commas_scan(input, j, parts, cur.push(ch), if depth > 0 { (depth - 1) as nat } else { 0 }, in_single, in_double)
        } else if ch == ',' && !in_single && !in_double && depth == 0 {
            let piece = trimmed(cur);
            commas_scan(
                input,
                j,
                if piece.len() > 0 { parts.push(piece) } else { parts },
                Seq::empty(),
                depth,
                in_single,
                in_double,
            )
        } else {
            commas_scan(input, j, parts, cur.push(ch), depth, in_single, in_double)
        }
    }
}

/// The trimmed, non-empty pieces of a text between its top-level commas
/// (outside parentheses and quotes).
pub open spec fn top_level_pieces(input: Seq<char>) -> Seq<Seq<char>> {
    commas_scan(input, 0, Seq::empty(), Seq::empty(), 0, false, false)
}

/// Splits at commas that are outside quotes and parentheses; the pieces are
/// trimmed and the empty ones dropped. A doubled quote stays inside its
/// quoting.
pub fn split_top_level_commas(input: &[char]) -> (parts: Vec<String>)
    ensures
        strings_view(parts@) == top_level_pieces(input@),
        forall|i: int| 0 <= i < parts@.len() ==> #[trigger] parts@[i]@.len() > 0 && parts@[i]@ == trimmed(parts@[i]@),
{
    let mut parts: Vec<String> = Vec::new();
    let mut current: Vec<char> = Vec::new();
    let mut depth: usize = 0;
    let mut in_single = false;
    let mut in_double = false;
    let mut i: usize = 0;
    assert(strings_view(parts@) =~= Seq::<Seq<char>>::empty());
    assert(current@ =~= Seq::<char>::empty());
    while i < input.len()
        invariant
            i <= input@.len(),
            depth <= i,
            forall|k: int| 0 <= k < parts@.len() ==> #[trigger] parts@[k]@.len() > 0 && parts@[k]@ == trimmed(parts@[k]@),
            commas_scan(input@, i as int, strings_view(parts@), current@, depth as nat, in_single, in_double)
                == top_level_pieces(input@),
        decreases input.len() - i,
    {
        let ghost i0 = i as int;
        let ghost pv = strings_view(parts@);
        let ghost cv = current@;
        let ghost d0 = depth as nat;
        let ghost s0 = in_single;
        let ghost q0 = in_double;
        assert(commas_scan(input@, i0, pv, cv, d0, s0, q0) == top_level_pieces(input@));
        let ch = input[i];
        i = i + 1;
        if ch == '\'' && !in_double {
            current.push(ch);
            if i < input.len() && input[i] == '\'' {
                current.push(input[i]);
                i = i + 1;
                assert(current@ =~= cv + seq![ch, input@[i0 + 1]]);
            } else {
                in_single = !in_single;
            }
        } else if ch == '"' && !in_single {
            current.push(ch);
            if i < input.len() && input[i] == '"' {
                current.push(input[i]);
                i = i + 1;
                assert(current@ =~= cv + seq![ch, input@[i0 + 1]]);
            } else {
                in_double = !in_double;
            }
        } else if ch == '(' && !in_single && !in_double {
            depth = depth + 1;
            current.push(ch);
        } else if ch == ')' && !in_single && !in_double {
            depth = depth.saturating_sub(1);
            current.push(ch);
        } else if ch == ',' && !in_single && !in_double && depth == 0 {
            let piece = trim(current.as_slice());
            if piece.len() > 0 {
                proof {
                    crate::text::lemma_trimmed_idempotent(current@);
                }
                parts.push(string_of(piece.as_slice()));
                assert(strings_view(parts@) =~= pv.push(trimmed(cv)));
            }
            current = Vec::new();
        } else {
            current.push(ch);
        }
    }
    let ghost pv = strings_view(parts@);
    let tail = trim(current.as_slice());
    if tail.len() > 0 {
        proof {
            crate::text::lemma_trimmed_idempotent(current@);
        }
        parts.push(string_of(tail.as_slice()));
        assert(strings_view(parts@) =~= pv.push(trimmed(current@)));
    }
    parts
}

} // verus!
