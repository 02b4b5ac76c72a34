//! The token-level layout used for statements the parser does not accept:
//! keywords are cased, clause keywords start new lines, and spacing around
//! punctuation is normalised.
use vstd::prelude::*;

use crate::config::FormatterConfig;
use crate::doc::{docs_view, lemma_docs_view, lemma_docs_view_push, Doc, DocV};
use crate::keywords::apply_keyword_case;
use crate::printer::{texts_seq_v, texts_v};
use crate::text::eq_str;
use crate::tokens::{tokenize, Tok, TokKind};

verus! {

broadcast use lemma_docs_view_push, lemma_docs_view;

/// The role of a token in the raw layout.
pub enum RawTokenKind {
    Keyword(String),
    WordOrLiteral,
    Comma,
    SemiColon,
    LParen,
    RParen,
    Period,
    DoubleColon,
    Other,
}

/// Whether a word token is an unquoted keyword, by its keyword name.
pub open spec fn is_keyword_word(quoted: bool, keyword: Seq<char>) -> bool {
    !quoted && keyword != "NoKeyword"@
}

/// The role of a token: an unquoted keyword by its name, a word, number or
/// literal, or a punctuation mark.
pub open spec fn raw_kind_of(t: Tok) -> RawTokenKind {
    match t.kind {
        TokKind::Word { quoted, keyword, .. } => if is_keyword_word(quoted, keyword@) {
            RawTokenKind::Keyword(keyword)
        } else {
            RawTokenKind::WordOrLiteral
        },
        TokKind::Number => RawTokenKind::WordOrLiteral,
        TokKind::Comma => RawTokenKind::Comma,
        TokKind::SemiColon => RawTokenKind::SemiColon,
        TokKind::LParen => RawTokenKind::LParen,
        TokKind::RParen => RawTokenKind::RParen,
        TokKind::Period => RawTokenKind::Period,
        TokKind::DoubleColon => RawTokenKind::DoubleColon,
        _ => RawTokenKind::Other,
    }
}

fn raw_kind(token: &Tok) -> (r: RawTokenKind)
    ensures
        r == raw_kind_of(*token),
{
    proof {
        reveal_strlit("NoKeyword");
    }
    match &token.kind {
        TokKind::Word { value, quoted, keyword } => {
            if !*quoted && !eq_str(crate::text::chars_of(keyword.as_str()).as_slice(), "NoKeyword") {
                RawTokenKind::Keyword(keyword.clone())
            } else {
                RawTokenKind::WordOrLiteral
            }
        },
        TokKind::Number => RawTokenKind::WordOrLiteral,
        TokKind::Comma => RawTokenKind::Comma,
        TokKind::SemiColon => RawTokenKind::SemiColon,
        TokKind::LParen => RawTokenKind::LParen,
        TokKind::RParen => RawTokenKind::RParen,
        TokKind::Period => RawTokenKind::Period,
        TokKind::DoubleColon => RawTokenKind::DoubleColon,
        _ => RawTokenKind::Other,
    }
}

/// The keywords that begin a clause in the raw layout.
pub open spec fn clause_keywords() -> Seq<Seq<char>> {
    seq![
        "SELECT"@, "FROM"@, "WHERE"@, "GROUP"@, "HAVING"@, "WINDOW"@, "ORDER"@, "LIMIT"@, "OFFSET"@,
        "JOIN"@, "INNER"@, "LEFT"@, "RIGHT"@, "FULL"@, "CROSS"@, "UNION"@, "EXCEPT"@, "INTERSECT"@,
        "VALUES"@, "SET"@, "INSERT"@, "UPDATE"@, "DELETE"@, "WITH"@, "ON"@, "CREATE"@, "ALTER"@,
        "PARTITION"@, "USING"@,
    ]
}

/// Whether a keyword (by name) begins a clause.
pub fn is_clause_keyword(kw: &str) -> (r: bool)
    ensures
        r == clause_keywords().contains(kw@),
{
    let names: [&str; 29] = [
        "SELECT", "FROM", "WHERE", "GROUP", "HAVING", "WINDOW", "ORDER", "LIMIT", "OFFSET", "JOIN",
        "INNER", "LEFT", "RIGHT", "FULL", "CROSS", "UNION", "EXCEPT", "INTERSECT", "VALUES", "SET",
        "INSERT", "UPDATE", "DELETE", "WITH", "ON", "CREATE", "ALTER", "PARTITION", "USING",
    ];
    let k = crate::text::chars_of(kw);
    let ghost cks = clause_keywords();
    assert(names@.len() == 29);
    assert(forall|j: int| 0 <= j < 29 ==> (#[trigger] names@[j])@ == cks[j]);
    let mut i: usize = 0;
    while i < 29
        invariant
            i <= 29,
            names@.len() == 29,
            cks == clause_keywords(),
            k@ == kw@,
            forall|j: int| 0 <= j < 29 ==> (#[trigger] names@[j])@ == cks[j],
            forall|j: int| 0 <= j < i ==> cks[j] != kw@,
        decreases 29 - i,
    {
        if eq_str(k.as_slice(), names[i]) {
            assert(cks[i as int] == kw@);
            return true;
        }
        i = i + 1;
    }
    assert(!cks.contains(kw@)) by {
        if cks.contains(kw@) {
            let j = choose|j: int| 0 <= j < cks.len() && cks[j] == kw@;
            assert(cks.len() == 29);
        }
    }
    false
}

/// Whether a keyword (by name) modifies a following `JOIN`.
pub fn is_join_modifier(kw: &str) -> (r: bool)
    ensures
        r == (kw@ == "INNER"@ || kw@ == "LEFT"@ || kw@ == "RIGHT"@ || kw@ == "FULL"@ || kw@ == "CROSS"@),
{
    let k = crate::text::chars_of(kw);
    eq_str(k.as_slice(), "INNER") || eq_str(k.as_slice(), "LEFT") || eq_str(k.as_slice(), "RIGHT")
        || eq_str(k.as_slice(), "FULL") || eq_str(k.as_slice(), "CROSS")
}

/// Whether a keyword name is a join modifier.
pub open spec fn join_modifier_name(k: Seq<char>) -> bool {
    k == "INNER"@ || k == "LEFT"@ || k == "RIGHT"@ || k == "FULL"@ || k == "CROSS"@
}

/// Whether a token starts a new line: a clause keyword, except `JOIN` after
/// a join modifier and a join modifier after another or after `JOIN`.
pub open spec fn starts_clause(kind: RawTokenKind, prev: Option<RawTokenKind>) -> bool {
    match kind {
        RawTokenKind::Keyword(kw) => clause_keywords().contains(kw@) && (if kw@ == "JOIN"@ {
            match prev {
                Some(RawTokenKind::Keyword(p)) => !join_modifier_name(p@),
                _ => true,
            }
        } else if join_modifier_name(kw@) {
            match prev {
                Some(RawTokenKind::Keyword(p)) => !(join_modifier_name(p@) || p@ == "JOIN"@),
                _ => true,
            }
        } else {
            true
        }),
        _ => false,
    }
}

/// Whether a space (when whitespace came between them) separates two
/// tokens: none after an opening parenthesis, a period or `::`, none before
/// a comma, a period, `::`, a closing parenthesis, a semicolon or an
/// opening parenthesis (but after a keyword an opening parenthesis gets
/// one).
pub open spec fn space_between(prev: Option<RawTokenKind>, cur: RawTokenKind) -> bool {
    match prev {
        None => false,
        Some(p) => if p is Keyword && cur is LParen {
            true
        } else if cur is Comma || cur is Period || cur is DoubleColon || cur is RParen || cur is SemiColon
            || cur is LParen {
            false
        } else {
            !(p is LParen || p is Period || p is DoubleColon)
        },
    }
}

/// Whether whitespace after a token may become a space.
pub open spec fn space_after(k: RawTokenKind) -> bool {
    !(k is LParen || k is Period || k is DoubleColon || k is SemiColon)
}

/// A token's text: a keyword's value in keyword case, anything else as
/// written.
pub open spec fn raw_text(t: Tok, kc: crate::config::KeywordCase) -> Seq<char> {
    match t.kind {
        TokKind::Word { value, quoted, keyword } => if is_keyword_word(quoted, keyword@) {
            crate::keywords::keyword_cased(value@, kc)
        } else {
            t.text@
        },
        _ => t.text@,
    }
}

/// The raw layout of tokens: the parts so far, whether whitespace is
/// pending, and the previous token's role.
pub open spec fn raw_scan(ts: Seq<Tok>, kc: crate::config::KeywordCase) -> (Seq<DocV>, bool, Option<RawTokenKind>)
    decreases ts.len(),
{
    if ts.len() == 0 {
        (Seq::empty(), false, None)
    } else {
        let (parts, pending, prev) = raw_scan(ts.drop_last(), kc);
        let t = ts.last();
        if t.kind is Space || t.kind is Comment {
            (parts, true, prev)
        } else {
            let kind = raw_kind_of(t);
            let line = starts_clause(kind, prev) && parts.len() > 0;
            let space = pending && space_between(prev, kind) && !line;
            let txt = raw_text(t, kc);
            (
                parts + (if line { seq![DocV::Line] } else { Seq::empty() }) + (if space {
                    seq![DocV::Space]
                } else {
                    Seq::empty()
                }) + (if txt.len() > 0 { seq![DocV::Text(txt)] } else { Seq::empty() }),
                space_after(kind),
                Some(kind),
            )
        }
    }
}

/// The raw layout of a statement's tokens: a group of its parts, or an
/// empty text.
pub open spec fn raw_doc(ts: Seq<Tok>, kc: crate::config::KeywordCase) -> DocV {
    let parts = raw_scan(ts, kc).0;
    if parts.len() == 0 {
        DocV::Text(Seq::empty())
    } else {
        DocV::Group(parts)
    }
}

fn is_join(kw: &str) -> (r: bool)
    ensures
        r == (kw@ == "JOIN"@),
{
    eq_str(crate::text::chars_of(kw).as_slice(), "JOIN")
}

/// A clause keyword starts a new line, except a `JOIN` after a join modifier
/// and a join modifier after another modifier or `JOIN`.
fn starts_new_clause(kind: &RawTokenKind, prev: &Option<RawTokenKind>) -> (r: bool)
    ensures
        r == starts_clause(*kind, *prev),
{
    match kind {
        RawTokenKind::Keyword(kw) => {
            if !is_clause_keyword(kw.as_str()) {
                return false;
            }
            let prev_kw = match prev {
                Some(RawTokenKind::Keyword(p)) => Some(p),
                _ => None,
            };
            if is_join(kw.as_str()) {
                return match prev_kw {
                    Some(p) => !is_join_modifier(p.as_str()),
                    None => true,
                };
            }
            if is_join_modifier(kw.as_str()) {
                return match prev_kw {
                    Some(p) => !(is_join_modifier(p.as_str()) || is_join(p.as_str())),
                    None => true,
                };
            }
            true
        },
        _ => false,
    }
}

fn needs_space_after(kind: &RawTokenKind) -> (r: bool)
    ensures
        r == space_after(*kind),
{
    match kind {
        RawTokenKind::LParen | RawTokenKind::Period | RawTokenKind::DoubleColon | RawTokenKind::SemiColon => false,
        _ => true,
    }
}

/// Whether a space goes between the previous token and this one.
fn should_insert_space(prev: &Option<RawTokenKind>, current: &RawTokenKind) -> (r: bool)
    ensures
        r == space_between(*prev, *current),
{
    match prev {
        None => false,
        Some(p) => {
            if matches!(p, RawTokenKind::Keyword(_)) && matches!(current, RawTokenKind::LParen) {
                return true;
            }
            match current {
                RawTokenKind::Comma | RawTokenKind::Period | RawTokenKind::DoubleColon | RawTokenKind::RParen
                | RawTokenKind::SemiColon | RawTokenKind::LParen => return false,
                _ => {},
            }
            match p {
                RawTokenKind::LParen | RawTokenKind::Period | RawTokenKind::DoubleColon => false,
                _ => true,
            }
        },
    }
}

fn render_raw_token(token: &Tok, cfg: &FormatterConfig) -> (r: String)
    ensures
        r@ == raw_text(*token, cfg.keyword_case),
{
    proof {
        reveal_strlit("NoKeyword");
    }
    match &token.kind {
        TokKind::Word { value, quoted, keyword } => {
            if !*quoted && !eq_str(crate::text::chars_of(keyword.as_str()).as_slice(), "NoKeyword") {
                apply_keyword_case(value.as_str(), cfg)
            } else {
                token.text.clone()
            }
        },
        _ => token.text.clone(),
    }
}

/// Lays out SQL text token by token: whitespace is normalised, keywords are
/// cased, and clause keywords start new lines.
pub fn format_raw_sql(raw_sql: &str, cfg: &FormatterConfig) -> (r: Result<Doc, String>)
    ensures
        r is Ok <==> crate::tokens::sql_tokens(cfg.dialect, raw_sql@) is Some,
        r matches Ok(d) ==> d@ == raw_doc(crate::tokens::sql_tokens(cfg.dialect, raw_sql@).unwrap(), cfg.keyword_case),
{
    let tokens = tokenize(cfg.dialect, raw_sql)?;
    let ghost ts = tokens@;
    let mut parts: Vec<Doc> = Vec::new();
    let mut pending_space = false;
    let mut prev_kind: Option<RawTokenKind> = None;
    let mut i: usize = 0;
    while i < tokens.len()
        invariant
            i <= tokens@.len(),
            ts == tokens@,
            (docs_view(parts@), pending_space, prev_kind) == raw_scan(ts.take(i as int), cfg.keyword_case),
        decreases tokens.len() - i,
    {
        proof {
            assert(ts.take(i + 1).drop_last() =~= ts.take(i as int));
            assert(ts.take(i + 1).last() == ts[i as int]);
        }
        let ghost p0 = docs_view(parts@);
        let token = &tokens[i];
        match token.kind {
            TokKind::Space | TokKind::Comment => {
                pending_space = true;
            },
            _ => {
                let kind = raw_kind(token);
                let starts_clause = starts_new_clause(&kind, &prev_kind);
                let mut insert_space = pending_space && should_insert_space(&prev_kind, &kind);
                if starts_clause && parts.len() > 0 {
                    parts.push(Doc::Line);
                    insert_space = false;
                }
                if insert_space {
                    parts.push(Doc::Space);
                }
                assert(docs_view(parts@) =~= p0 + (if starts_clause && p0.len() > 0 {
                    seq![DocV::Line]
                } else {
                    Seq::<DocV>::empty()
                }) + (if insert_space {
                    seq![DocV::Space]
                } else {
                    Seq::<DocV>::empty()
                }));
                let ghost p1 = docs_view(parts@);
                let text = render_raw_token(token, cfg);
                if text.as_str().unicode_len() > 0 {
                    parts.push(Doc::Text(text));
                }
                assert(docs_view(parts@) =~= p1 + (if text@.len() > 0 {
                    seq![DocV::Text(text@)]
                } else {
                    Seq::<DocV>::empty()
                }));
                pending_space = needs_space_after(&kind);
                prev_kind = Some(kind);
            },
        }
        i = i + 1;
    }
    assert(ts.take(i as int) =~= ts);
    if parts.len() == 0 {
        Ok(Doc::Text(String::new()))
    } else {
        Ok(Doc::Group(parts))
    }
}

/// The tokens of a text as written, whitespace and comments left out, one
/// after another; an unquoted keyword in the keyword case.
pub open spec fn tokens_as_written(ts: Seq<Tok>, kc: crate::config::KeywordCase) -> Seq<char>
    decreases ts.len(),
{
    if ts.len() == 0 {
        Seq::empty()
    } else {
        let t = ts.last();
        tokens_as_written(ts.drop_last(), kc) + (match t.kind {
            TokKind::Space => Seq::empty(),
            TokKind::Comment => Seq::empty(),
            TokKind::Word { value, quoted, keyword } => if !quoted && keyword@ != "NoKeyword"@ {
                crate::keywords::keyword_cased(value@, kc)
            } else {
                t.text@
            },
            _ => t.text@,
        })
    }
}

proof fn lemma_texts_append(a: Seq<DocV>, b: Seq<DocV>)
    ensures
        texts_seq_v(a + b) == texts_seq_v(a) + texts_seq_v(b),
    decreases b.len(),
{
    if b.len() == 0 {
        assert(a + b =~= a);
        assert(texts_seq_v(a) + Seq::<char>::empty() =~= texts_seq_v(a));
    } else {
        lemma_texts_append(a, b.drop_last());
        assert((a + b).drop_last() =~= a + b.drop_last());
        assert((a + b).last() == b.last());
        assert(texts_seq_v(a) + texts_seq_v(b.drop_last()) + texts_v(b.last()) =~= texts_seq_v(a) + texts_seq_v(b));
    }
}

proof fn lemma_texts_one(d: DocV)
    ensures
        texts_seq_v(seq![d]) == texts_v(d),
{
    let one = seq![d];
    assert(one.drop_last() =~= Seq::<DocV>::empty());
    assert(one.last() == d);
    assert(one.len() == 1);
    assert(texts_seq_v(Seq::<DocV>::empty()) == Seq::<char>::empty());
    assert(texts_seq_v(one) == texts_seq_v(one.drop_last()) + texts_v(one.last()));
    assert(Seq::<char>::empty() + texts_v(d) =~= texts_v(d));
}

proof fn lemma_raw_scan_texts(ts: Seq<Tok>, kc: crate::config::KeywordCase)
    ensures
        texts_seq_v(raw_scan(ts, kc).0) == tokens_as_written(ts, kc),
    decreases ts.len(),
{
    if ts.len() > 0 {
        lemma_raw_scan_texts(ts.drop_last(), kc);
        let (parts, pending, prev) = raw_scan(ts.drop_last(), kc);
        let t = ts.last();
        if !(t.kind is Space || t.kind is Comment) {
            let kind = raw_kind_of(t);
            let line = starts_clause(kind, prev) && parts.len() > 0;
            let space = pending && space_between(prev, kind) && !line;
            let txt = raw_text(t, kc);
            let l: Seq<DocV> = if line { seq![DocV::Line] } else { Seq::empty() };
            let sp: Seq<DocV> = if space { seq![DocV::Space] } else { Seq::empty() };
            let tx: Seq<DocV> = if txt.len() > 0 { seq![DocV::Text(txt)] } else { Seq::empty() };
            lemma_texts_one(DocV::Line);
            lemma_texts_one(DocV::Space);
            lemma_texts_one(DocV::Text(txt));
            assert(texts_seq_v(Seq::<DocV>::empty()) == Seq::<char>::empty());
            lemma_texts_append(parts, l);
            lemma_texts_append(parts + l, sp);
            lemma_texts_append(parts + l + sp, tx);
            assert(texts_seq_v(l) == Seq::<char>::empty());
            assert(texts_seq_v(sp) == Seq::<char>::empty());
            if txt.len() == 0 {
                assert(texts_seq_v(tx) =~= txt);
            }
            assert(texts_seq_v(tx) == txt);
            assert(raw_scan(ts, kc).0 == parts + l + sp + tx);
            assert(texts_seq_v(parts) + Seq::<char>::empty() + Seq::<char>::empty() + txt =~= texts_seq_v(parts) + txt);
        } else {
            assert(tokens_as_written(ts.drop_last(), kc) + Seq::<char>::empty() =~= tokens_as_written(ts.drop_last(), kc));
        }
    }
}

/// The raw layout keeps every token: its texts, in order, are the tokens
/// of the text as written (whitespace and comments left out), with only the
/// unquoted keywords put in the keyword case. No token is dropped, added,
/// reordered or altered.
pub proof fn law_raw_layout_keeps_tokens(ts: Seq<Tok>, kc: crate::config::KeywordCase)
    ensures
        texts_v(raw_doc(ts, kc)) == tokens_as_written(ts, kc),
{
    lemma_raw_scan_texts(ts, kc);
    assert(texts_seq_v(Seq::<DocV>::empty()) == Seq::<char>::empty());
}

} // verus!
