//! Formatting SQL text end to end.
use vstd::prelude::*;

use crate::blocks::{lit, separated_docs, sep_list, Sep};
use crate::comments::{extract_comments, extract_scan, frags_view, reattach_comments, reattached, CommentFragment};
use crate::config::{FormatterConfig, TemplatingMode};
use crate::doc::{doc_view, docs_view, lemma_docs_view, lemma_docs_view_push, Doc, DocV};
use crate::dremio_format::{command_doc_ok, format_dremio_command};
use crate::jinja::{
    contains_jinja_markers, frag_views, jinja_marked, preserve_jinja_expressions, preserved, restore_jinja_expressions,
    tokens_fit, JinjaFragment, JinjaReplacement,
};
use crate::literals::{preserve_string_literals, restore_string_literals, strings};
use crate::literals::protected;
use crate::parser::{entry_views, parse_sql_with_options, parsed_entries, EntryV, ParseOptions, ParsedStatement};
use crate::printer::{format_doc, printed, PrintConfig};
use crate::raw::{format_raw_sql, raw_doc};
use crate::sql_format::{format_statement, statement_layout, RelationAliasTracker};
use crate::text::{chars_of, push_str, string_of};

verus! {

broadcast use lemma_docs_view_push, lemma_docs_view;

/// Whether a semicolon ended the statement.
pub open spec fn semicolon_of(p: ParsedStatement) -> bool {
    crate::parser::ends_with_semicolon(p)
}

/// A statement's document followed by `;`.
pub open spec fn with_semicolon(d: DocV) -> bool {
    d matches DocV::Group(v) && v.len() == 2 && v[1] == DocV::Text(";"@)
}

/// What the layout of a parsed statement, without its semicolon, is: a
/// SQL statement's layout with its relation-alias flags read from the
/// start, a command's layout, or the token layout of raw text.
pub open spec fn body_ok(p: ParsedStatement, cfg: FormatterConfig, d: DocV) -> bool {
    match p {
        ParsedStatement::Sql { stmt, version, relation_alias_has_as, .. } => d == statement_layout(
            *stmt,
            cfg,
            version,
            relation_alias_has_as@,
            0,
        ),
        ParsedStatement::Command { cmd, .. } => command_doc_ok(cmd, cfg, d),
        ParsedStatement::Raw { sql, .. } => crate::tokens::sql_tokens(cfg.dialect, sql@) matches Some(ts) && d
            == raw_doc(ts, cfg.keyword_case),
    }
}

/// A parsed statement's document: its layout, followed by `;` when a
/// semicolon ended it.
pub open spec fn doc_ok(p: ParsedStatement, cfg: FormatterConfig, d: DocV) -> bool {
    if semicolon_of(p) {
        d matches DocV::Group(v) && v.len() == 2 && v[1] == DocV::Text(";"@) && body_ok(p, cfg, v[0])
    } else {
        body_ok(p, cfg, d)
    }
}

pub open spec fn docs_ok(ps: Seq<ParsedStatement>, cfg: FormatterConfig, ds: Seq<DocV>) -> bool {
    ds.len() == ps.len() && forall|i: int| 0 <= i < ps.len() ==> doc_ok(ps[i], cfg, #[trigger] ds[i])
}

/// Raw text that the tokenizer refuses has no layout.
pub open spec fn unlaid(p: ParsedStatement, cfg: FormatterConfig) -> bool {
    p matches ParsedStatement::Raw { sql, .. } && crate::tokens::sql_tokens(cfg.dialect, sql@) is None
}

/// The layout of one statement, without its semicolon.
fn statement_body(stmt: ParsedStatement, cfg: &FormatterConfig) -> (r: Result<Doc, String>)
    ensures
        r is Err ==> stmt is Raw,
        r is Err <==> unlaid(stmt, *cfg),
        r matches Ok(d) ==> body_ok(stmt, *cfg, d@),
{
    match stmt {
        ParsedStatement::Sql { stmt, version, relation_alias_has_as, .. } => {
            let mut tracker = RelationAliasTracker::new(relation_alias_has_as);
            Ok(format_statement(&stmt, cfg, version, &mut tracker))
        },
        ParsedStatement::Command { cmd, .. } => Ok(format_dremio_command(&cmd, cfg)),
        ParsedStatement::Raw { sql, .. } => format_raw_sql(sql.as_str(), cfg),
    }
}

/// One statement's document, followed by `;` exactly when a semicolon ended
/// it in the source.
fn statement_doc(stmt: ParsedStatement, cfg: &FormatterConfig) -> (r: Result<Doc, String>)
    ensures
        r is Err ==> stmt is Raw,
        r matches Ok(d) ==> (semicolon_of(stmt) ==> with_semicolon(d@)),
        r is Err <==> unlaid(stmt, *cfg),
        r matches Ok(d) ==> doc_ok(stmt, *cfg, d@),
{
    let semicolon = match &stmt {
        ParsedStatement::Sql { has_semicolon, .. } => *has_semicolon,
        ParsedStatement::Command { has_semicolon, .. } => *has_semicolon,
        ParsedStatement::Raw { has_semicolon, .. } => *has_semicolon,
    };
    let ghost st = stmt;
    let doc = statement_body(stmt, cfg)?;
    assert(semicolon == semicolon_of(st));
    if semicolon {
        let semi = lit(";");
        let v = vec![doc, semi];
        assert(v@.len() == 2);
        assert(docs_view(v@).len() == 2);
        assert(docs_view(v@)[1] == doc_view(v@[1]));
        let r = Doc::Group(v);
        Ok(r)
    } else {
        Ok(doc)
    }
}

/// The statements' documents in order, each followed by `;` exactly when
/// its source had one.
#[verifier::loop_isolation(false)]
fn statement_docs(stmts: Vec<ParsedStatement>, cfg: &FormatterConfig) -> (r: Result<Vec<Doc>, String>)
    ensures
        r matches Ok(ds) ==> ds@.len() == stmts@.len() && forall|i: int| 0 <= i < ds@.len()
            ==> (semicolon_of(stmts@[i]) ==> with_semicolon((#[trigger] ds@[i])@)),
        r is Err <==> exists|i: int| 0 <= i < stmts@.len() && unlaid(#[trigger] stmts@[i], *cfg),
        r matches Ok(ds) ==> docs_ok(stmts@, *cfg, docs_view(ds@)),
{
    let ghost orig = stmts@;
    let mut stmts = stmts;
    let mut docs: Vec<Doc> = Vec::new();
    while stmts.len() > 0
        invariant
            docs@.len() + stmts@.len() == orig.len(),
            stmts@ == orig.skip(docs@.len() as int),
            forall|i: int| 0 <= i < docs@.len() ==> (semicolon_of(orig[i]) ==> with_semicolon((#[trigger] docs@[i])@)),
            forall|i: int| 0 <= i < docs@.len() ==> !unlaid(#[trigger] orig[i], *cfg),
            docs_ok(orig.take(docs@.len() as int), *cfg, docs_view(docs@)),
        decreases stmts.len(),
    {
        let ghost k = docs@.len() as int;
        assert(0 <= k < orig.len());
        let ghost before = docs_view(docs@);
        let stmt = stmts.remove(0);
        assert(stmt == orig[k]);
        let doc = match statement_doc(stmt, cfg) {
            Ok(d) => d,
            Err(e) => {
                assert(unlaid(orig[k], *cfg));
                assert(exists|i: int| 0 <= i < orig.len() && unlaid(#[trigger] orig[i], *cfg));
                return Err(e);
            },
        };
        let ghost dv = doc@;
        docs.push(doc);
        assert(stmts@ =~= orig.skip(docs@.len() as int));
        proof {
            assert(docs_view(docs@) == before.push(dv));
            assert(orig.take(k + 1) =~= orig.take(k).push(orig[k]));
            assert forall|i: int| 0 <= i < k + 1 implies doc_ok(
                orig.take(k + 1)[i],
                *cfg,
                #[trigger] docs_view(docs@)[i],
            ) by {
                if i < k {
                    assert(orig.take(k + 1)[i] == orig.take(k)[i]);
                    assert(docs_view(docs@)[i] == before[i]);
                }
            }
        }
    }
    assert(orig.take(docs@.len() as int) =~= orig);
    proof {
        assert forall|i: int| 0 <= i < orig.len() implies !unlaid(#[trigger] orig[i], *cfg) by {
            assert(!unlaid(orig[i], *cfg));
        }
    }
    Ok(docs)
}

/// The statements one after another with two hard line breaks, that is one
/// blank line, between neighbours.
pub fn join_statements(docs: Vec<Doc>) -> (d: Doc)
    ensures
        d@ == DocV::Concat(sep_list(docs_view(docs@), seq![DocV::Line, DocV::Line])),
{
    let ghost orig = docs@;
    assert(orig.len() == docs.len());
    let mut docs = docs;
    let mut v: Vec<Doc> = Vec::new();
    let mut k: usize = 0;
    while docs.len() > 0
        invariant
            k + docs@.len() == orig.len(),
            orig.len() <= usize::MAX,
            docs@ == orig.skip(k as int),
            docs_view(v@) == sep_list(docs_view(orig.take(k as int)), seq![DocV::Line, DocV::Line]),
        decreases docs.len(),
    {
        let ghost pre = docs_view(v@);
        let d = docs.remove(0);
        assert(d == orig[k as int]);
        assert(orig.take(k + 1).drop_last() =~= orig.take(k as int));
        assert(docs_view(orig.take(k + 1)).drop_last() =~= docs_view(orig.take(k as int)));
        assert(docs_view(orig.take(k + 1)).last() == doc_view(orig[k as int]));
        if k > 0 {
            v.push(Doc::Line);
            v.push(Doc::Line);
        }
        v.push(d);
        proof {
            if k == 0 {
                assert(docs_view(v@) =~= seq![doc_view(orig[0])]);
            } else {
                assert(docs_view(v@) =~= pre + seq![DocV::Line, DocV::Line] + seq![doc_view(orig[k as int])]);
            }
        }
        k = k + 1;
        assert(docs@ =~= orig.skip(k as int));
    }
    assert(orig.take(k as int) =~= orig);
    Doc::Concat(v)
}

/// Why formatting failed: the SQL parser refused a statement in strict mode,
/// or the tokenizer refused a text.
#[derive(Debug)]
pub enum FormatError {
    Parse(String),
    Tokenize(String),
}

/// The error as a message: `parse failed: <reason>`, or the tokenizer's
/// own message.
pub open spec fn error_message(e: FormatError) -> Seq<char> {
    match e {
        FormatError::Parse(m) => "parse failed: "@ + m@,
        FormatError::Tokenize(m) => m@,
    }
}

impl FormatError {
    /// The error as a message.
    pub fn message(&self) -> (r: String)
        ensures
            r@ == error_message(*self),
    {
        match self {
            FormatError::Parse(m) => {
                let mut msg = chars_of("parse failed: ");
                push_str(&mut msg, m.as_str());
                string_of(msg.as_slice())
            },
            FormatError::Tokenize(m) => m.clone(),
        }
    }
}

/// The printed statements, one blank line apart, with the literals and the
/// template tags put back, and then the comments after the text is
/// tokenized again; nothing when that text cannot be tokenized.
pub open spec fn finished(
    ds: Seq<DocV>,
    literals: Seq<Seq<char>>,
    tags: Seq<(Seq<char>, Seq<char>, JinjaReplacement)>,
    comments: Seq<CommentFragment>,
    cfg: FormatterConfig,
) -> Option<Seq<char>> {
    let pcfg = PrintConfig { line_length: cfg.line_length, indent_width: cfg.indent_width };
    let text = crate::jinja::restored(
        crate::literals::restored(printed(DocV::Concat(sep_list(ds, seq![DocV::Line, DocV::Line])), pcfg), literals),
        tags,
    );
    if comments.len() == 0 {
        Some(text)
    } else {
        match crate::tokens::sql_tokens(cfg.dialect, text) {
            Some(ts) => Some(reattached(ts, comments)),
            None => None,
        }
    }
}

/// Lays out parsed statements and finishes the text: the statements'
/// documents one after another with a blank line between them, printed,
/// with the protected literals and template tags and then the comments put
/// back. Fails when a raw statement or the printed text cannot be
/// tokenized.
pub fn render_statements(
    stmts: Vec<ParsedStatement>,
    literals: &Vec<String>,
    tags: &Vec<JinjaFragment>,
    comments: Vec<CommentFragment>,
    cfg: &FormatterConfig,
) -> (r: Result<String, FormatError>)
    requires
        tokens_fit(frag_views(tags@)),
    ensures
        r is Err ==> r matches Err(FormatError::Tokenize(_)),
        (exists|i: int| 0 <= i < stmts@.len() && unlaid(#[trigger] stmts@[i], *cfg)) ==> r is Err,
        r matches Ok(s) ==> exists|ds: Seq<DocV>|
            #[trigger] docs_ok(stmts@, *cfg, ds) && finished(ds, strings(literals@), frag_views(tags@), comments@, *cfg)
                == Some(s@),
        r is Err ==> (exists|i: int| 0 <= i < stmts@.len() && unlaid(#[trigger] stmts@[i], *cfg)) || exists|ds: Seq<DocV>|
            #[trigger] docs_ok(stmts@, *cfg, ds) && finished(ds, strings(literals@), frag_views(tags@), comments@, *cfg)
                is None,
{
    let ghost all = stmts@;
    let ghost cs = comments@;
    let docs = match statement_docs(stmts, cfg) {
        Ok(d) => d,
        Err(e) => return Err(FormatError::Tokenize(e)),
    };
    let ghost ds = docs_view(docs@);
    assert(docs_ok(all, *cfg, ds));
    let document = join_statements(docs);
    let print_cfg = PrintConfig { line_length: cfg.line_length, indent_width: cfg.indent_width };
    let rendered = format_doc(&document, &print_cfg);
    let restored = restore_string_literals(chars_of(rendered.as_str()).as_slice(), literals);
    let restored = restore_jinja_expressions(restored, tags);
    let ghost text = restored@;
    assert(text == crate::jinja::restored(
        crate::literals::restored(printed(DocV::Concat(sep_list(ds, seq![DocV::Line, DocV::Line])), print_cfg), strings(literals@)),
        frag_views(tags@),
    ));
    match reattach_comments(restored, comments, cfg.dialect) {
        Ok(out) => {
            assert(finished(ds, strings(literals@), frag_views(tags@), cs, *cfg) == Some(out@));
            Ok(string_of(out.as_slice()))
        },
        Err(e) => {
            assert(finished(ds, strings(literals@), frag_views(tags@), cs, *cfg) is None);
            Err(FormatError::Tokenize(e))
        },
    }
}

/// What the SQL parser and the comment scan give for a text: the parsed
/// statements and the comments that were set aside.
pub open spec fn pipeline_inputs(
    input: Seq<char>,
    cfg: FormatterConfig,
    ps: Seq<ParsedStatement>,
    cs: Seq<CommentFragment>,
) -> bool {
    &&& parsed_entries(cfg.dialect, protected(input).0, cfg.strict) == Ok::<Seq<EntryV>, Seq<char>>(entry_views(ps))
    &&& frags_view(cs) == extract_scan(crate::tokens::sql_tokens(cfg.dialect, input).unwrap()).0
}

/// The statements are laid out and the finished text is `s`.
pub open spec fn pipeline_gives(
    input: Seq<char>,
    cfg: FormatterConfig,
    ps: Seq<ParsedStatement>,
    cs: Seq<CommentFragment>,
    s: Seq<char>,
) -> bool {
    exists|ds: Seq<DocV>|
        #[trigger] docs_ok(ps, cfg, ds) && finished(ds, protected(input).1, Seq::empty(), cs, cfg) == Some(s)
}

/// A raw statement has no layout, or the printed text cannot be tokenized
/// again to put the comments back.
pub open spec fn pipeline_fails(
    input: Seq<char>,
    cfg: FormatterConfig,
    ps: Seq<ParsedStatement>,
    cs: Seq<CommentFragment>,
) -> bool {
    ||| exists|i: int| 0 <= i < ps.len() && unlaid(#[trigger] ps[i], cfg)
    ||| exists|ds: Seq<DocV>|
        #[trigger] docs_ok(ps, cfg, ds) && finished(ds, protected(input).1, Seq::empty(), cs, cfg) is None
}

/// What formatting text without template handling gives: the tokenizer's
/// refusal of the text, the strict parser's refusal of a statement, the
/// finished text, or the tokenizer's refusal of a raw statement or of the
/// printed text; each exactly when it comes.
pub open spec fn plain_post(input: Seq<char>, cfg: FormatterConfig, r: Result<String, FormatError>) -> bool {
    &&& (r matches Err(FormatError::Parse(_)) ==> cfg.strict)
    &&& (crate::tokens::sql_tokens(cfg.dialect, input) is None ==> r matches Err(FormatError::Tokenize(_)))
    &&& (r matches Err(FormatError::Parse(m)) ==> parsed_entries(cfg.dialect, protected(input).0, cfg.strict)
        == Err::<Seq<EntryV>, Seq<char>>(m@))
    &&& (crate::tokens::sql_tokens(cfg.dialect, input) is Some ==> (parsed_entries(
        cfg.dialect,
        protected(input).0,
        cfg.strict,
    ) matches Err(m) ==> (r matches Err(FormatError::Parse(x)) && x@ == m)))
    &&& (r matches Ok(s) ==> exists|ps: Seq<ParsedStatement>, cs: Seq<CommentFragment>|
        #![trigger entry_views(ps), frags_view(cs)]
        pipeline_inputs(input, cfg, ps, cs) && pipeline_gives(input, cfg, ps, cs, s@))
    &&& (r matches Err(FormatError::Tokenize(_)) ==> crate::tokens::sql_tokens(cfg.dialect, input) is None
        || exists|ps: Seq<ParsedStatement>, cs: Seq<CommentFragment>|
        #![trigger entry_views(ps), frags_view(cs)]
        pipeline_inputs(input, cfg, ps, cs) && pipeline_fails(input, cfg, ps, cs))
}

/// The result in dbt mode from the result on the text with its tags
/// protected: the tags put back into a success, an error as it is.
pub open spec fn tags_put_back(
    p: Result<String, FormatError>,
    tags: Seq<(Seq<char>, Seq<char>, JinjaReplacement)>,
    r: Result<String, FormatError>,
) -> bool {
    match p {
        Ok(s) => r matches Ok(t) && t@ == crate::jinja::restored(s@, tags),
        Err(e) => r == Err::<String, FormatError>(e),
    }
}

/// What `format_sql` gives. Without dbt templating, text with template
/// markers comes back unchanged and other text is formatted as it is. With
/// dbt templating, the tags are protected, the text around them formatted,
/// and the tags put back exactly as written.
pub open spec fn format_sql_post(input: Seq<char>, cfg: FormatterConfig, r: Result<String, FormatError>) -> bool {
    &&& (!(cfg.templating is Dbt) && jinja_marked(input) ==> (r matches Ok(s) && s@ == input))
    &&& (!(cfg.templating is Dbt) && !jinja_marked(input) ==> plain_post(input, cfg, r))
    &&& (cfg.templating is Dbt ==> exists|p: Result<String, FormatError>|
        plain_post(preserved(input).0, cfg, p) && #[trigger] tags_put_back(p, preserved(input).1, r))
}

/// Formats SQL text that is handled without templates: comments and string
/// literals are set aside, the statements are parsed and laid out one after
/// another with a blank line between them, and the literals and comments
/// are put back. Only a strict parse fails on a statement the SQL parser
/// refuses; any other error is text that the tokenizer refuses.
pub fn format_plain_sql(input: &str, cfg: &FormatterConfig) -> (r: Result<String, FormatError>)
    ensures
        plain_post(input@, *cfg, r),
{
    let comments = match extract_comments(input, cfg.dialect) {
        Ok(c) => c,
        Err(e) => return Err(FormatError::Tokenize(e)),
    };
    let input_chars = chars_of(input);
    let (patched, literals) = preserve_string_literals(input_chars.as_slice());
    let patched_text = string_of(patched.as_slice());
    assert(patched_text@ == protected(input@).0);
    let stmts = match parse_sql_with_options(
        patched_text.as_str(),
        cfg.dialect,
        ParseOptions { strict: cfg.strict },
    ) {
        Ok(v) => v,
        Err(e) => return Err(FormatError::Parse(e)),
    };
    let ghost ps = stmts@;
    let ghost cs = comments@;
    let no_tags: Vec<JinjaFragment> = Vec::new();
    assert(frag_views(no_tags@) =~= Seq::<(Seq<char>, Seq<char>, JinjaReplacement)>::empty());
    let r = render_statements(stmts, &literals, &no_tags, comments, cfg);
    proof {
        assert(pipeline_inputs(input@, *cfg, ps, cs));
        if r is Ok {
            let s = r->Ok_0;
            let ds = choose|ds: Seq<DocV>|
                #[trigger] docs_ok(ps, *cfg, ds) && finished(ds, strings(literals@), frag_views(no_tags@), cs, *cfg)
                    == Some(s@);
            assert(docs_ok(ps, *cfg, ds));
            assert(pipeline_gives(input@, *cfg, ps, cs, s@));
            assert(entry_views(ps) == entry_views(ps) && frags_view(cs) == frags_view(cs));
        } else {
            if (exists|i: int| 0 <= i < ps.len() && unlaid(#[trigger] ps[i], *cfg)) {
            } else {
                let ds = choose|ds: Seq<DocV>|
                    #[trigger] docs_ok(ps, *cfg, ds) && finished(ds, strings(literals@), frag_views(no_tags@), cs, *cfg)
                        is None;
                assert(docs_ok(ps, *cfg, ds));
            }
            assert(pipeline_fails(input@, *cfg, ps, cs));
            assert(entry_views(ps) == entry_views(ps) && frags_view(cs) == frags_view(cs));
        }
    }
    r
}

/// Formats SQL text. Without dbt templating, text with template markers
/// (`{{`, `{%`, `{#`) is returned unchanged; with it, each tag is set aside
/// behind a token, the text around the tags is formatted, and the tags are
/// put back as written.
pub fn format_sql(input: &str, cfg: &FormatterConfig) -> (r: Result<String, FormatError>)
    ensures
        format_sql_post(input@, *cfg, r),
{
    let input_chars = chars_of(input);
    let dbt = match cfg.templating {
        TemplatingMode::Dbt => true,
        TemplatingMode::Passthrough => false,
    };
    if !dbt {
        if contains_jinja_markers(input_chars.as_slice()) {
            return Ok(string_of(input_chars.as_slice()));
        }
        return format_plain_sql(input, cfg);
    }
    let (patched, tags) = preserve_jinja_expressions(input_chars.as_slice());
    let patched_text = string_of(patched.as_slice());
    let p = format_plain_sql(patched_text.as_str(), cfg);
    let ghost pg = p;
    let r = match p {
        Ok(s) => {
            let restored = restore_jinja_expressions(chars_of(s.as_str()), &tags);
            Ok(string_of(restored.as_slice()))
        },
        Err(e) => Err(e),
    };
    assert(tags_put_back(pg, preserved(input@).1, r));
    r
}

} // verus!
