//! Layout of Dremio version clauses and commands.
use vstd::prelude::*;

use crate::blocks::{format_option_block, format_parenthesized_clause, split_top_level_commas};
use crate::commands::{AlterTableReflectionCommand, DremioCommand, DremioVersionClause, VersionSelector};
use crate::config::FormatterConfig;
use crate::doc::{docs_view, lemma_docs_view, lemma_docs_view_push, Doc, DocV};
use crate::keywords::{apply_keyword_case, apply_keyword_case_chars, case_chars, keyword_cased, keyword_doc};
use crate::sql_format::cased_join;
use crate::text::{
    chars_of, eq_ignore_ascii_case, eq_ignore_case, ends_with_str, find_from, has_prefix, is_ascii_whitespace,
    is_whitespace, lower, push_all, push_str, slice, split_words, starts_with, starts_with_str, string_of,
    trim, trim_end_chars, trimmed,
};

verus! {

broadcast use lemma_docs_view_push, lemma_docs_view;

fn text_doc(v: &[char]) -> (d: Doc)
    ensures
        d@ == crate::doc::DocV::Text(v@),
{
    Doc::Text(string_of(v))
}

fn cased(s: &str, cfg: &FormatterConfig) -> (r: Vec<char>)
    ensures
        r@ == keyword_cased(s@, cfg.keyword_case),
{
    case_chars(chars_of(s).as_slice(), cfg.keyword_case)
}

/// The selector keyword and target of a version clause.
pub open spec fn selector_parts(s: VersionSelector) -> (Seq<char>, Seq<char>) {
    match s {
        VersionSelector::Branch(n) => ("BRANCH"@, n@),
        VersionSelector::Tag(n) => ("TAG"@, n@),
        VersionSelector::Ref(n) => ("REF"@, n@),
        VersionSelector::Commit(n) => ("COMMIT"@, n@),
    }
}

/// The lines of a version clause: `AT <kind> <target>`, then `AS OF
/// TIMESTAMP <value>`.
pub open spec fn version_lines(v: DremioVersionClause, kc: crate::config::KeywordCase) -> Seq<DocV> {
    let at_part: Seq<DocV> = match v.at {
        Some(s) => seq![
            DocV::Text(
                keyword_cased("AT"@, kc) + seq![' '] + keyword_cased(selector_parts(s).0, kc) + seq![' ']
                    + selector_parts(s).1,
            ),
        ],
        None => Seq::empty(),
    };
    match v.as_of_timestamp {
        Some(ts) => at_part + (if at_part.len() > 0 { seq![DocV::Line] } else { Seq::empty() }) + seq![
            DocV::Text(
                keyword_cased("AS"@, kc) + seq![' '] + keyword_cased("OF"@, kc) + seq![' '] + keyword_cased(
                    "TIMESTAMP"@,
                    kc,
                ) + seq![' '] + ts@,
            ),
        ],
        None => at_part,
    }
}

/// `AT BRANCH x` and `AS OF TIMESTAMP t`, each on its own line.
pub(crate) fn format_dremio_version_clause(v: &DremioVersionClause, cfg: &FormatterConfig) -> (d: Doc)
    ensures
        d@ == DocV::Group(version_lines(*v, cfg.keyword_case)),
{
    let mut parts: Vec<Doc> = Vec::new();
    if let Some(at) = &v.at {
        let (kind, name) = match at {
            VersionSelector::Branch(name) => ("BRANCH", name),
            VersionSelector::Tag(name) => ("TAG", name),
            VersionSelector::Ref(name) => ("REF", name),
            VersionSelector::Commit(name) => ("COMMIT", name),
        };
        let mut t = cased("AT", cfg);
        t.push(' ');
        push_all(&mut t, cased(kind, cfg).as_slice());
        t.push(' ');
        push_str(&mut t, name.as_str());
        parts.push(text_doc(t.as_slice()));
        proof {
            let kc = cfg.keyword_case;
            assert(t@ =~= keyword_cased("AT"@, kc) + seq![' '] + keyword_cased(selector_parts(*at).0, kc)
                + seq![' '] + selector_parts(*at).1);
            assert(docs_view(parts@) =~= seq![DocV::Text(t@)]);
        }
    }
    if let Some(ts) = &v.as_of_timestamp {
        if parts.len() > 0 {
            parts.push(Doc::Line);
        }
        let ghost before = docs_view(parts@);
        let mut t = cased("AS", cfg);
        t.push(' ');
        push_all(&mut t, cased("OF", cfg).as_slice());
        t.push(' ');
        push_all(&mut t, cased("TIMESTAMP", cfg).as_slice());
        t.push(' ');
        push_str(&mut t, ts.as_str());
        parts.push(text_doc(t.as_slice()));
        proof {
            let kc = cfg.keyword_case;
            assert(t@ =~= keyword_cased("AS"@, kc) + seq![' '] + keyword_cased("OF"@, kc) + seq![' ']
                + keyword_cased("TIMESTAMP"@, kc) + seq![' '] + ts@);
        }
    }
    proof {
        assert(docs_view(parts@) =~= version_lines(*v, cfg.keyword_case));
    }
    Doc::Group(parts)
}

/// What a recognised Dremio command's layout is, variant by variant.
pub open spec fn command_doc_ok(cmd: DremioCommand, cfg: FormatterConfig, d: DocV) -> bool {
    &&& (cmd matches DremioCommand::Use { path } ==> d == DocV::Text(
            keyword_cased("USE"@, cfg.keyword_case) + seq![' '] + path@,
        ))
    &&& (cmd matches DremioCommand::CreateFolder { if_not_exists, path } ==> d == DocV::Text(
            keyword_cased("CREATE"@, cfg.keyword_case) + seq![' '] + keyword_cased("FOLDER"@, cfg.keyword_case)
                + (if if_not_exists {
                seq![' '] + keyword_cased("IF"@, cfg.keyword_case) + seq![' '] + keyword_cased("NOT"@, cfg.keyword_case)
                    + seq![' '] + keyword_cased("EXISTS"@, cfg.keyword_case)
            } else {
                Seq::empty()
            }) + (if path@.len() > 0 {
                seq![' '] + path@
            } else {
                Seq::empty()
            }),
        ))
    &&& (cmd matches DremioCommand::BranchTag { verb, kind, rest } ==> d == (if eq_ignore_ascii_case(verb@, "MERGE"@)
            && eq_ignore_ascii_case(kind@, "BRANCH"@) {
            merge_branch_doc(rest@, cfg)
        } else {
            command_rest_doc(
                cased_join(seq![verb@, kind@], cfg.keyword_case),
                rest@,
                cfg,
                eq_ignore_ascii_case(verb@, "MERGE"@),
            )
        }))
    &&& (cmd matches DremioCommand::Show { kind, rest } ==> d == command_rest_doc(
            cased_join(seq!["SHOW"@, kind@], cfg.keyword_case),
            rest@,
            cfg,
            false,
        ))
    &&& (cmd matches DremioCommand::VacuumCatalog { rest } ==> d == command_rest_doc(
            cased_join(seq!["VACUUM"@, "CATALOG"@], cfg.keyword_case),
            rest@,
            cfg,
            false,
        ))
    &&& (cmd matches DremioCommand::Pipe { verb, rest } ==> d == pipe_doc(verb@, rest@, cfg))
    &&& (cmd matches DremioCommand::AlterTableReflection(c) ==> alter_table_reflection_ok(c, cfg, d))
    &&& (cmd matches DremioCommand::Reflection { verb, rest } ==> d == reflection_doc(verb@, rest@, cfg))
    &&& (cmd matches DremioCommand::TableMaintenance { verb, rest } ==> d == (if eq_ignore_ascii_case(
            verb@,
            "COPY INTO TABLE"@,
        ) {
            copy_into_doc(rest@, cfg)
        } else if eq_ignore_ascii_case(verb@, "COPY INTO"@) {
            verb_name_options_doc(rest@, verb@, cfg)
        } else {
            optimize_or_vacuum_doc(rest@, verb@, cfg)
        }))
    &&& (cmd matches DremioCommand::AlterPds { rest } ==> d == alter_pds_doc(rest@, cfg))
    &&& (cmd matches DremioCommand::AnalyzeTable { rest } ==> d == command_rest_doc(
            cased_join(seq!["ANALYZE"@, "TABLE"@], cfg.keyword_case),
            rest@,
            cfg,
            true,
        ))
    &&& (cmd matches DremioCommand::ShowTableProperties { rest } ==> d == command_rest_doc(
            cased_join(seq!["SHOW"@, "TABLE"@, "PROPERTIES"@], cfg.keyword_case),
            rest@,
            cfg,
            false,
        ))
    &&& (cmd matches DremioCommand::AccelerationManage { verb, rest } ==> d == acceleration_manage_doc(
            verb@,
            rest@,
            cfg,
        ))
    &&& (cmd matches DremioCommand::Acceleration { rest } ==> d == acceleration_doc(rest@, cfg))
    &&& (cmd matches DremioCommand::RolesUsers { kind, rest } ==> d == command_rest_doc(
            cased_join(seq![kind@], cfg.keyword_case),
            rest@,
            cfg,
            false,
        ))
    &&& (cmd matches DremioCommand::RowColumnPolicies { rest } ==> d == command_rest_doc(
            cased_join(seq!["ROW"@, "COLUMN"@, "POLICIES"@], cfg.keyword_case),
            rest@,
            cfg,
            false,
        ))
    &&& (cmd matches DremioCommand::QueueTag { verb, kind, rest } ==> d == command_rest_doc(
            cased_join(seq![verb@, kind@], cfg.keyword_case),
            rest@,
            cfg,
            false,
        ))
    &&& (cmd matches DremioCommand::Generic { head, rest } ==> d == command_rest_doc(
            cased_join(head@.map_values(|h: String| h@), cfg.keyword_case),
            rest@,
            cfg,
            false,
        ))
}

/// Lays out a recognised Dremio command.
pub(crate) fn format_dremio_command(cmd: &DremioCommand, cfg: &FormatterConfig) -> (d: Doc)
    ensures
        command_doc_ok(*cmd, *cfg, d@),
{
    match cmd {
        DremioCommand::Use { path } => {
            let mut t = cased("USE", cfg);
            t.push(' ');
            push_str(&mut t, path.as_str());
            proof {
                assert(t@ =~= keyword_cased("USE"@, cfg.keyword_case) + seq![' '] + path@);
            }
            text_doc(t.as_slice())
        },
        DremioCommand::AlterTableReflection(c) => format_alter_table_reflection(c, cfg),
        DremioCommand::BranchTag { verb, kind, rest } => {
            let verb_c = chars_of(verb.as_str());
            let kind_c = chars_of(kind.as_str());
            let prefer_break = eq_ignore_case(verb_c.as_slice(), "MERGE");
            if prefer_break && eq_ignore_case(kind_c.as_slice(), "BRANCH") {
                format_merge_branch(rest.as_str(), cfg)
            } else {
                let hp = vec![verb_c, kind_c];
                assert(chars_views(hp@) =~= seq![verb@, kind@]);
                format_command_with_rest(&hp, rest.as_str(), cfg, prefer_break)
            }
        },
        DremioCommand::Show { kind, rest } => {
            let hp = vec![chars_of("SHOW"), chars_of(kind.as_str())];
            assert(chars_views(hp@) =~= seq!["SHOW"@, kind@]);
            format_command_with_rest(&hp, rest.as_str(), cfg, false)
        },
        DremioCommand::VacuumCatalog { rest } => {
            let hp = vec![chars_of("VACUUM"), chars_of("CATALOG")];
            assert(chars_views(hp@) =~= seq!["VACUUM"@, "CATALOG"@]);
            format_command_with_rest(&hp, rest.as_str(), cfg, false)
        },
        DremioCommand::Pipe { verb, rest } => format_pipe(verb.as_str(), rest.as_str(), cfg),
        DremioCommand::TableMaintenance { verb, rest } => {
            let v = chars_of(verb.as_str());
            if eq_ignore_case(v.as_slice(), "COPY INTO TABLE") {
                format_copy_into(rest.as_str(), cfg)
            } else if eq_ignore_case(v.as_slice(), "COPY INTO") {
                format_verb_name_options(rest.as_str(), verb.as_str(), cfg)
            } else {
                format_optimize_or_vacuum(rest.as_str(), verb.as_str(), cfg)
            }
        },
        DremioCommand::CreateFolder { if_not_exists, path } => {
            let mut t = cased("CREATE", cfg);
            t.push(' ');
            push_all(&mut t, cased("FOLDER", cfg).as_slice());
            let ghost base = t@;
            assert(base =~= keyword_cased("CREATE"@, cfg.keyword_case) + seq![' '] + keyword_cased("FOLDER"@, cfg.keyword_case));
            if *if_not_exists {
                t.push(' ');
                push_all(&mut t, cased("IF", cfg).as_slice());
                t.push(' ');
                push_all(&mut t, cased("NOT", cfg).as_slice());
                t.push(' ');
                push_all(&mut t, cased("EXISTS", cfg).as_slice());
                proof {
                    assert(t@ =~= base + (seq![' '] + keyword_cased("IF"@, cfg.keyword_case) + seq![' ']
                        + keyword_cased("NOT"@, cfg.keyword_case) + seq![' '] + keyword_cased("EXISTS"@, cfg.keyword_case)));
                }
            } else {
                proof {
                    assert(t@ =~= base + Seq::<char>::empty());
                }
            }
            let ghost head = t@;
            let ghost mid: Seq<char> = if *if_not_exists {
                seq![' '] + keyword_cased("IF"@, cfg.keyword_case) + seq![' '] + keyword_cased("NOT"@, cfg.keyword_case)
                    + seq![' '] + keyword_cased("EXISTS"@, cfg.keyword_case)
            } else {
                Seq::empty()
            };
            assert(head =~= base + mid);
            if path.as_str().unicode_len() > 0 {
                t.push(' ');
                push_str(&mut t, path.as_str());
                proof {
                    assert(t@ =~= head + (seq![' '] + path@));
                }
            } else {
                proof {
                    assert(t@ =~= head + Seq::<char>::empty());
                }
            }
            text_doc(t.as_slice())
        },
        DremioCommand::AlterPds { rest } => format_alter_pds(rest.as_str(), cfg),
        DremioCommand::AnalyzeTable { rest } => {
            let hp = vec![chars_of("ANALYZE"), chars_of("TABLE")];
            assert(chars_views(hp@) =~= seq!["ANALYZE"@, "TABLE"@]);
            format_command_with_rest(&hp, rest.as_str(), cfg, true)
        },
        DremioCommand::ShowTableProperties { rest } => {
            let hp = vec![chars_of("SHOW"), chars_of("TABLE"), chars_of("PROPERTIES")];
            assert(chars_views(hp@) =~= seq!["SHOW"@, "TABLE"@, "PROPERTIES"@]);
            format_command_with_rest(&hp, rest.as_str(), cfg, false)
        },
        DremioCommand::AccelerationManage { verb, rest } => format_acceleration_manage(
            verb.as_str(),
            rest.as_str(),
            cfg,
        ),
        DremioCommand::Acceleration { rest } => format_acceleration(rest.as_str(), cfg),
        DremioCommand::Reflection { verb, rest } => format_reflection(verb.as_str(), rest.as_str(), cfg),
        DremioCommand::RolesUsers { kind, rest } => {
            let hp = vec![chars_of(kind.as_str())];
            assert(chars_views(hp@) =~= seq![kind@]);
            format_command_with_rest(&hp, rest.as_str(), cfg, false)
        },
        DremioCommand::RowColumnPolicies { rest } => {
            let hp = vec![chars_of("ROW"), chars_of("COLUMN"), chars_of("POLICIES")];
            assert(chars_views(hp@) =~= seq!["ROW"@, "COLUMN"@, "POLICIES"@]);
            format_command_with_rest(&hp, rest.as_str(), cfg, false)
        },
        DremioCommand::QueueTag { verb, kind, rest } => {
            let hp = vec![chars_of(verb.as_str()), chars_of(kind.as_str())];
            assert(chars_views(hp@) =~= seq![verb@, kind@]);
            format_command_with_rest(&hp, rest.as_str(), cfg, false)
        },
        DremioCommand::Generic { head, rest } => {
            let mut parts: Vec<Vec<char>> = Vec::new();
            let mut i: usize = 0;
            while i < head.len()
                invariant
                    i <= head@.len(),
                    parts@.len() == i,
                    forall|k: int| 0 <= k < i ==> #[trigger] parts@[k]@ == head@[k]@,
                decreases head.len() - i,
            {
                parts.push(chars_of(head[i].as_str()));
                i = i + 1;
            }
            assert(chars_views(parts@) =~= head@.map_values(|h: String| h@));
            format_command_with_rest(&parts, rest.as_str(), cfg, false)
        },
    }
}

/// The views of character vectors.
pub open spec fn chars_views(v: Seq<Vec<char>>) -> Seq<Seq<char>> {
    v.map_values(|w: Vec<char>| w@)
}

/// The words in keyword case, joined by single spaces.
fn cased_head(parts: &Vec<Vec<char>>, cfg: &FormatterConfig) -> (r: Vec<char>)
    ensures
        r@ == cased_join(chars_views(parts@), cfg.keyword_case),
{
    let ghost all = chars_views(parts@);
    let mut head: Vec<char> = Vec::new();
    let mut i: usize = 0;
    while i < parts.len()
        invariant
            i <= parts@.len(),
            all == chars_views(parts@),
            head@ == cased_join(all.take(i as int), cfg.keyword_case),
        decreases parts.len() - i,
    {
        proof {
            assert(all.take(i + 1).drop_last() =~= all.take(i as int));
            assert(all.take(i + 1).last() == parts@[i as int]@);
        }
        let ghost before = head@;
        if i > 0 {
            head.push(' ');
        }
        let c = case_chars(parts[i].as_slice(), cfg.keyword_case);
        push_all(&mut head, c.as_slice());
        proof {
            if i == 0 {
                assert(all.take(1) =~= seq![parts@[0]@]);
                assert(head@ =~= cased_join(all.take(1), cfg.keyword_case));
            } else {
                assert(head@ =~= before + seq![' '] + keyword_cased(parts@[i as int]@, cfg.keyword_case));
            }
        }
        i = i + 1;
    }
    proof {
        assert(all.take(i as int) =~= all);
    }
    head
}

/// `HEAD rest` on one line when the rest is empty, or when it fits and no
/// break is forced (a preferred break is forced past half the line);
/// otherwise the rest on an indented line of its own.
pub open spec fn command_rest_doc(head: Seq<char>, rest: Seq<char>, cfg: FormatterConfig, prefer_break: bool) -> DocV {
    let r = trimmed(rest);
    let inline_len = head.len() + (if r.len() == 0 { 0 } else { 1 + r.len() });
    let force_break = prefer_break && inline_len > cfg.line_length / 2;
    if r.len() == 0 || (!force_break && inline_len <= cfg.line_length) {
        DocV::Text(head + (if r.len() > 0 { seq![' '] + r } else { Seq::empty() }))
    } else {
        DocV::Group(seq![DocV::Text(head), DocV::Line, DocV::Indent(Box::new(DocV::Text(r)))])
    }
}

/// `HEAD rest` on one line when it fits (and, when a break is preferred,
/// when it takes at most half the line); otherwise the rest on an indented
/// line of its own.
fn format_command_with_rest(
    parts: &Vec<Vec<char>>,
    rest: &str,
    cfg: &FormatterConfig,
    prefer_break: bool,
) -> (d: Doc)
    ensures
        d@ == command_rest_doc(cased_join(chars_views(parts@), cfg.keyword_case), rest@, *cfg, prefer_break),
{
    let mut head = cased_head(parts, cfg);
    let ghost hv = head@;
    let rest_c = trim(chars_of(rest).as_slice());
    let inline_len: u128 = head.len() as u128 + if rest_c.len() == 0 {
        0
    } else {
        1 + rest_c.len() as u128
    };
    let force_break = prefer_break && inline_len > (cfg.line_length / 2) as u128;
    if rest_c.len() == 0 || (!force_break && inline_len <= cfg.line_length as u128) {
        if rest_c.len() > 0 {
            head.push(' ');
            push_all(&mut head, rest_c.as_slice());
            assert(head@ =~= hv + (seq![' '] + rest_c@));
        } else {
            assert(head@ =~= hv + Seq::<char>::empty());
        }
        text_doc(head.as_slice())
    } else {
        text_group_line_indent(head.as_slice(), rest_c.as_slice())
    }
}

/// `HEAD`, a line, the rest indented.
fn text_group_line_indent(head: &[char], rest: &[char]) -> (d: Doc)
    ensures
        d@ == DocV::Group(seq![DocV::Text(head@), DocV::Line, DocV::Indent(Box::new(DocV::Text(rest@)))]),
{
    let v = vec![text_doc(head), Doc::Line, Doc::Indent(Box::new(text_doc(rest)))];
    assert(docs_view(v@) =~= seq![DocV::Text(head@), DocV::Line, DocV::Indent(Box::new(DocV::Text(rest@)))]);
    Doc::Group(v)
}

/// The `REFRESH METADATA` suffixes of `ALTER PDS`, longest first.
pub open spec fn pds_suffixes() -> Seq<Seq<char>> {
    seq!["refresh metadata force update"@, "refresh metadata"@]
}

/// `ALTER PDS <path> <suffix>` with the suffix in keyword case, for the
/// first suffix that ends the text (ignoring case).
pub open spec fn pds_suffix_text(rest: Seq<char>, suffix: Seq<char>, kc: crate::config::KeywordCase) -> Seq<char> {
    let cut = if suffix.len() <= rest.len() { rest.len() - suffix.len() } else { 0 };
    let path = crate::text::trim_end(rest.take(cut));
    let ws = crate::text::words(suffix);
    keyword_cased("ALTER"@, kc) + seq![' '] + keyword_cased("PDS"@, kc) + (if path.len() > 0 {
        seq![' '] + path
    } else {
        Seq::empty()
    }) + (if ws.len() > 0 {
        seq![' '] + cased_join(ws, kc)
    } else {
        Seq::empty()
    })
}

/// `ALTER PDS` with a `REFRESH METADATA` suffix on one line, or the rest
/// after the head as it fits.
pub open spec fn alter_pds_doc(rest: Seq<char>, cfg: FormatterConfig) -> DocV {
    let low = crate::text::lower_of(rest);
    if crate::text::has_suffix(low, pds_suffixes()[0]) {
        DocV::Text(pds_suffix_text(rest, pds_suffixes()[0], cfg.keyword_case))
    } else if crate::text::has_suffix(low, pds_suffixes()[1]) {
        DocV::Text(pds_suffix_text(rest, pds_suffixes()[1], cfg.keyword_case))
    } else {
        command_rest_doc(cased_join(seq!["ALTER"@, "PDS"@], cfg.keyword_case), rest, cfg, false)
    }
}

fn format_alter_pds(rest: &str, cfg: &FormatterConfig) -> (d: Doc)
    ensures
        d@ == alter_pds_doc(rest@, *cfg),
{
    let rest_c = chars_of(rest);
    let low = lower(rest_c.as_slice());
    let suffixes: [&str; 2] = ["refresh metadata force update", "refresh metadata"];
    assert(suffixes@.map_values(|x: &str| x@) =~= pds_suffixes());
    let mut k: usize = 0;
    while k < 2
        invariant
            k <= 2,
            suffixes@.map_values(|x: &str| x@) == pds_suffixes(),
            rest_c@ == rest@,
            low@ == crate::text::lower_of(rest@),
            forall|j: int| 0 <= j < k ==> !crate::text::has_suffix(low@, #[trigger] pds_suffixes()[j]),
        decreases 2 - k,
    {
        let suffix = suffixes[k];
        assert(suffix@ == pds_suffixes()[k as int]);
        if ends_with_str(low.as_slice(), suffix) {
            let slen = suffix.unicode_len();
            let cut = if slen <= rest_c.len() {
                rest_c.len() - slen
            } else {
                0
            };
            let head_part = slice(rest_c.as_slice(), 0, cut);
            assert(head_part@ =~= rest@.take(cut as int));
            let path_part = trim_end_chars(head_part.as_slice());
            let words = split_words(chars_of(suffix).as_slice());
            assert(chars_views(words@) =~= crate::text::words(suffix@));
            let mut t = cased("ALTER", cfg);
            t.push(' ');
            push_all(&mut t, cased("PDS", cfg).as_slice());
            let ghost t0 = t@;
            assert(t0 =~= keyword_cased("ALTER"@, cfg.keyword_case) + seq![' '] + keyword_cased("PDS"@, cfg.keyword_case));
            assert(path_part@ == crate::text::trim_end(rest@.take(cut as int)));
            if path_part.len() > 0 {
                t.push(' ');
                push_all(&mut t, path_part.as_slice());
                assert(t@ =~= t0 + (seq![' '] + path_part@));
            } else {
                assert(t@ =~= t0 + Seq::<char>::empty());
            }
            let ghost t1 = t@;
            if words.len() > 0 {
                t.push(' ');
                push_all(&mut t, cased_head(&words, cfg).as_slice());
                assert(t@ =~= t1 + (seq![' '] + cased_join(crate::text::words(suffix@), cfg.keyword_case)));
            } else {
                assert(t@ =~= t1 + Seq::<char>::empty());
            }
            assert(t@ =~= pds_suffix_text(rest@, suffix@, cfg.keyword_case));
            return text_doc(t.as_slice());
        }
        k = k + 1;
    }
    let hp = vec![chars_of("ALTER"), chars_of("PDS")];
    assert(chars_views(hp@) =~= seq!["ALTER"@, "PDS"@]);
    format_command_with_rest(&hp, rest, cfg, false)
}

fn format_copy_into(rest: &str, cfg: &FormatterConfig) -> (d: Doc)
    ensures
        d@ == copy_into_doc(rest@, *cfg),
{
    let rest_c = trim(chars_of(rest).as_slice());
    if rest_c.len() == 0 {
        return keyword_doc(cfg, "COPY INTO TABLE");
    }
    let (target, using_block, with_block) = split_copy_into_parts(rest_c.as_slice());
    let mut parts = vec![keyword_doc(cfg, "COPY INTO TABLE"), Doc::Line];
    parts.push(Doc::Indent(Box::new(text_doc(target.as_slice()))));
    let ghost p0 = docs_view(parts@);
    assert(p0 =~= seq![
        DocV::Text(keyword_cased("COPY INTO TABLE"@, cfg.keyword_case)),
        DocV::Line,
        DocV::Indent(Box::new(DocV::Text(target@))),
    ]);
    if let Some(using) = &using_block {
        parts.push(Doc::Line);
        parts.push(Doc::Indent(Box::new(format_option_block("USING", using.as_slice(), cfg))));
    }
    let ghost p1 = docs_view(parts@);
    assert(p1 =~= p0 + (match copy_into_parts(rest_c@).1 {
        Some(u) => seq![DocV::Line, DocV::Indent(Box::new(crate::blocks::spec_option_block("USING"@, u, *cfg)))],
        None => Seq::<DocV>::empty(),
    }));
    if let Some(with) = &with_block {
        parts.push(Doc::Line);
        parts.push(Doc::Indent(Box::new(format_option_block("WITH", with.as_slice(), cfg))));
    }
    assert(docs_view(parts@) =~= p1 + (match copy_into_parts(rest_c@).2 {
        Some(w) => seq![DocV::Line, DocV::Indent(Box::new(crate::blocks::spec_option_block("WITH"@, w, *cfg)))],
        None => Seq::<DocV>::empty(),
    }));
    Doc::Group(parts)
}

/// The position of the first space, if any.
pub open spec fn first_space_pos(s: Seq<char>) -> Option<int> {
    if exists|i: int| 0 <= i < s.len() && s[i] == ' ' {
        Some(choose|i: int| 0 <= i < s.len() && s[i] == ' ' && forall|j: int| 0 <= j < i ==> s[j] != ' ')
    } else {
        None
    }
}

/// The position of the first space, if any.
fn first_space(s: &[char]) -> (r: Option<usize>)
    ensures
        r matches Some(i) ==> i < s@.len() && s@[i as int] == ' ',
        r matches Some(i) ==> first_space_pos(s@) == Some(i as int),
        r is None ==> first_space_pos(s@) is None,
{
    let mut i: usize = 0;
    while i < s.len()
        invariant
            i <= s@.len(),
            forall|j: int| 0 <= j < i ==> s@[j] != ' ',
        decreases s.len() - i,
    {
        if s[i] == ' ' {
            proof {
                let w = choose|k: int| 0 <= k < s@.len() && s@[k] == ' ' && forall|j: int| 0 <= j < k ==> s@[j] != ' ';
                assert(0 <= i < s@.len() && s@[i as int] == ' ' && forall|j: int| 0 <= j < i ==> s@[j] != ' ');
                assert(w == i) by {
                    if w < i {
                        assert(s@[w] != ' ');
                    } else if w > i {
                        assert(s@[i as int] != ' ');
                    }
                }
            }
            return Some(i);
        }
        i = i + 1;
    }
    None
}

/// The options after a name: a `WITH` or `USING` block on an indented
/// line, other options after a space when the whole fits on the line,
/// otherwise on an indented line.
pub open spec fn options_tail(opts: Seq<char>, name_len: int, inline_len: int, cfg: FormatterConfig) -> Seq<DocV> {
    let low = crate::text::lower_of(opts);
    if opts.len() == 0 {
        Seq::empty()
    } else if has_prefix(low, "with"@) {
        seq![DocV::Line, DocV::Indent(Box::new(crate::blocks::spec_option_block("WITH"@, opts, cfg)))]
    } else if has_prefix(low, "using"@) {
        seq![DocV::Line, DocV::Indent(Box::new(crate::blocks::spec_option_block("USING"@, opts, cfg)))]
    } else if inline_len + name_len + opts.len() > cfg.line_length {
        seq![DocV::Line, DocV::Indent(Box::new(DocV::Text(opts)))]
    } else {
        seq![DocV::Space, DocV::Text(opts)]
    }
}

/// `HEAD name` then the options; without a space the rest follows the
/// head.
pub open spec fn head_name_options_doc(head: Seq<char>, rest: Seq<char>, inline_len: int, cfg: FormatterConfig) -> DocV {
    match first_space_pos(rest) {
        Some(sp) => {
            let name = trimmed(rest.take(sp));
            let opts = trimmed(rest.skip(sp + 1));
            DocV::Group(
                seq![DocV::Text(head), DocV::Space, DocV::Text(name)] + options_tail(opts, name.len() as int, inline_len, cfg),
            )
        },
        None => DocV::Group(seq![DocV::Text(head), DocV::Space, DocV::Text(rest)]),
    }
}

fn format_options_tail(opts: &[char], name_len: usize, inline_len: u128, cfg: &FormatterConfig) -> (v: Vec<Doc>)
    requires
        inline_len <= 0x1_0000_0000_0000_0000_0000u128,
    ensures
        docs_view(v@) == options_tail(opts@, name_len as int, inline_len as int, *cfg),
{
    let mut parts: Vec<Doc> = Vec::new();
    if opts.len() > 0 {
        let low = lower(opts);
        proof {
            reveal_strlit("with");
            reveal_strlit("using");
        }
        if starts_with_str(low.as_slice(), "with") {
            parts.push(Doc::Line);
            parts.push(Doc::Indent(Box::new(format_option_block("WITH", opts, cfg))));
        } else if starts_with_str(low.as_slice(), "using") {
            parts.push(Doc::Line);
            parts.push(Doc::Indent(Box::new(format_option_block("USING", opts, cfg))));
        } else {
            let total = inline_len + name_len as u128 + opts.len() as u128;
            if total > cfg.line_length as u128 {
                parts.push(Doc::Line);
                parts.push(Doc::Indent(Box::new(text_doc(opts))));
            } else {
                parts.push(Doc::Space);
                parts.push(text_doc(opts));
            }
        }
    }
    assert(docs_view(parts@) =~= options_tail(opts@, name_len as int, inline_len as int, *cfg));
    parts
}

/// `HEAD name` then the options: `WITH`/`USING` blocks on an indented line,
/// other options inline when they fit.
#[verifier::rlimit(50)]
fn format_head_name_options(head: Vec<char>, rest: &[char], inline_len: u128, cfg: &FormatterConfig) -> (d: Doc)
    requires
        inline_len <= 0x1_0000_0000_0000_0000_0000u128,
    ensures
        d@ == head_name_options_doc(head@, rest@, inline_len as int, *cfg),
{
    let ghost hv = head@;
    let mut parts = vec![text_doc(head.as_slice())];
    assert(docs_view(parts@) =~= seq![DocV::Text(hv)]);
    match first_space(rest) {
        Some(sp) => {
            assert(sp < rest.len());
            let name = trim(slice(rest, 0, sp).as_slice());
            assert(rest@.subrange(0, sp as int) =~= rest@.take(sp as int));
            parts.push(Doc::Space);
            parts.push(text_doc(name.as_slice()));
            let ghost p1 = docs_view(parts@);
            assert(p1 =~= seq![DocV::Text(hv), DocV::Space, DocV::Text(name@)]);
            let opts = trim(slice(rest, sp + 1, rest.len()).as_slice());
            assert(rest@.subrange(sp + 1, rest@.len() as int) =~= rest@.skip(sp + 1));
            let tail = format_options_tail(opts.as_slice(), name.len(), inline_len, cfg);
            crate::blocks::push_docs(&mut parts, tail);
        },
        None => {
            parts.push(Doc::Space);
            parts.push(text_doc(rest));
            assert(docs_view(parts@) =~= seq![DocV::Text(hv), DocV::Space, DocV::Text(rest@)]);
        },
    }
    Doc::Group(parts)
}

/// `<verb> PIPE`, then the pipe's name and options.
pub open spec fn pipe_doc(verb: Seq<char>, rest: Seq<char>, cfg: FormatterConfig) -> DocV {
    let r = trimmed(rest);
    let head = keyword_cased(verb, cfg.keyword_case) + seq![' '] + keyword_cased("PIPE"@, cfg.keyword_case);
    if r.len() == 0 {
        DocV::Text(head)
    } else {
        head_name_options_doc(head, r, (head.len() + 2) as int, cfg)
    }
}

fn format_pipe(verb: &str, rest: &str, cfg: &FormatterConfig) -> (d: Doc)
    ensures
        d@ == pipe_doc(verb@, rest@, *cfg),
{
    let rest_c = trim(chars_of(rest).as_slice());
    let mut head = cased_chars_str(verb, cfg);
    head.push(' ');
    push_all(&mut head, cased("PIPE", cfg).as_slice());
    assert(head@ =~= keyword_cased(verb@, cfg.keyword_case) + seq![' '] + keyword_cased("PIPE"@, cfg.keyword_case));
    if rest_c.len() == 0 {
        return text_doc(head.as_slice());
    }
    let inline_len = head.len() as u128 + 2;
    format_head_name_options(head, rest_c.as_slice(), inline_len, cfg)
}

fn cased_chars_str(s: &str, cfg: &FormatterConfig) -> (r: Vec<char>)
    ensures
        r@ == keyword_cased(s@, cfg.keyword_case),
{
    case_chars(chars_of(s).as_slice(), cfg.keyword_case)
}

/// `<verb> TABLE`, then the table's name and options.
pub open spec fn optimize_or_vacuum_doc(rest: Seq<char>, verb: Seq<char>, cfg: FormatterConfig) -> DocV {
    let r = trimmed(rest);
    let head = keyword_cased(verb, cfg.keyword_case) + seq![' '] + keyword_cased("TABLE"@, cfg.keyword_case);
    if r.len() == 0 {
        DocV::Text(head)
    } else {
        head_name_options_doc(head, r, (verb.len() + 7) as int, cfg)
    }
}

/// The verb as written, then the name and options (`COPY INTO` without
/// `TABLE`).
pub open spec fn verb_name_options_doc(rest: Seq<char>, verb: Seq<char>, cfg: FormatterConfig) -> DocV {
    let r = trimmed(rest);
    let head = keyword_cased(verb, cfg.keyword_case);
    if r.len() == 0 {
        DocV::Text(head)
    } else {
        head_name_options_doc(head, r, (verb.len() + 1) as int, cfg)
    }
}

fn format_verb_name_options(rest: &str, verb: &str, cfg: &FormatterConfig) -> (d: Doc)
    ensures
        d@ == verb_name_options_doc(rest@, verb@, *cfg),
{
    let rest_c = trim(chars_of(rest).as_slice());
    let head = cased_chars_str(verb, cfg);
    if rest_c.len() == 0 {
        return text_doc(head.as_slice());
    }
    let inline_len = verb.unicode_len() as u128 + 1;
    format_head_name_options(head, rest_c.as_slice(), inline_len, cfg)
}

fn format_optimize_or_vacuum(rest: &str, verb: &str, cfg: &FormatterConfig) -> (d: Doc)
    ensures
        d@ == optimize_or_vacuum_doc(rest@, verb@, *cfg),
{
    let rest_c = trim(chars_of(rest).as_slice());
    let mut head = cased_chars_str(verb, cfg);
    head.push(' ');
    push_all(&mut head, cased("TABLE", cfg).as_slice());
    assert(head@ =~= keyword_cased(verb@, cfg.keyword_case) + seq![' '] + keyword_cased("TABLE"@, cfg.keyword_case));
    if rest_c.len() == 0 {
        return text_doc(head.as_slice());
    }
    let inline_len = verb.unicode_len() as u128 + 7;
    format_head_name_options(head, rest_c.as_slice(), inline_len, cfg)
}

/// Whether a token is one of the given words, ignoring ASCII case.
fn matches_keyword(tok: &[char], keywords: &[&str]) -> (r: bool)
    ensures
        r == exists|i: int| 0 <= i < keywords@.len() && eq_ignore_ascii_case(tok@, #[trigger] keywords@[i]@),
{
    let mut i: usize = 0;
    while i < keywords.len()
        invariant
            i <= keywords@.len(),
            forall|j: int| 0 <= j < i ==> !eq_ignore_ascii_case(tok@, #[trigger] keywords@[j]@),
        decreases keywords.len() - i,
    {
        if eq_ignore_case(tok, keywords[i]) {
            return true;
        }
        i = i + 1;
    }
    false
}

/// Whether a word opens a `MERGE BRANCH` clause: `INTO`, `AT` or `AS`.
pub open spec fn merge_clause_word(t: Seq<char>) -> bool {
    eq_ignore_ascii_case(t, "into"@) || eq_ignore_ascii_case(t, "at"@) || eq_ignore_ascii_case(t, "as"@)
}

/// The words after the source, grouped into clauses that each start at a
/// clause word: the finished clauses and the one being filled.
pub open spec fn merge_groups(ts: Seq<Seq<char>>) -> (Seq<Seq<Seq<char>>>, Seq<Seq<char>>)
    decreases ts.len(),
{
    if ts.len() == 0 {
        (Seq::empty(), Seq::empty())
    } else {
        let (done, cur) = merge_groups(ts.drop_last());
        let t = ts.last();
        if merge_clause_word(t) && cur.len() > 0 {
            (done.push(cur), seq![t])
        } else {
            (done, cur.push(t))
        }
    }
}

pub open spec fn merge_clauses(ts: Seq<Seq<char>>) -> Seq<Seq<Seq<char>>> {
    let (done, cur) = merge_groups(ts);
    if cur.len() > 0 {
        done.push(cur)
    } else {
        done
    }
}

/// The words after the first, each after a space.
pub open spec fn spaced_tail(ws: Seq<Seq<char>>) -> Seq<char>
    decreases ws.len(),
{
    if ws.len() == 0 {
        Seq::empty()
    } else {
        spaced_tail(ws.drop_last()) + seq![' '] + ws.last()
    }
}

/// A clause on its own line: its first word in keyword case, the others as
/// written.
pub open spec fn merge_clause_lines(cs: Seq<Seq<Seq<char>>>, kc: crate::config::KeywordCase) -> Seq<DocV>
    decreases cs.len(),
{
    if cs.len() == 0 {
        Seq::empty()
    } else {
        let c = cs.last();
        merge_clause_lines(cs.drop_last(), kc) + (if c.len() > 0 {
            seq![
                DocV::Line,
                DocV::Indent(Box::new(DocV::Text(keyword_cased(c[0], kc) + spaced_tail(c.drop_first())))),
            ]
        } else {
            Seq::empty()
        })
    }
}

/// `MERGE BRANCH`, the source branch on an indented line, then each
/// `INTO`/`AT`/`AS` clause on an indented line.
pub open spec fn merge_branch_doc(rest: Seq<char>, cfg: FormatterConfig) -> DocV {
    let ts = crate::text::words(trimmed(rest));
    if ts.len() == 0 {
        DocV::Text(keyword_cased("MERGE BRANCH"@, cfg.keyword_case))
    } else {
        DocV::Group(
            seq![
                DocV::Text(keyword_cased("MERGE BRANCH"@, cfg.keyword_case)),
                DocV::Line,
                DocV::Indent(Box::new(DocV::Text(ts[0]))),
            ] + merge_clause_lines(merge_clauses(ts.skip(1)), cfg.keyword_case),
        )
    }
}

pub open spec fn clause_views(v: Seq<Vec<Vec<char>>>) -> Seq<Seq<Seq<char>>> {
    v.map_values(|c: Vec<Vec<char>>| chars_views(c@))
}

#[verifier::loop_isolation(false)]
#[verifier::spinoff_prover]
#[verifier::rlimit(60)]
fn format_merge_branch(rest: &str, cfg: &FormatterConfig) -> (d: Doc)
    ensures
        d@ == merge_branch_doc(rest@, *cfg),
{
    let rest_c = trim(chars_of(rest).as_slice());
    let tokens = split_words(rest_c.as_slice());
    let ghost ts = crate::text::words(trimmed(rest@));
    assert(chars_views(tokens@) =~= ts);
    if tokens.len() == 0 {
        return keyword_doc(cfg, "MERGE BRANCH");
    }
    let clause_words: [&str; 3] = ["into", "at", "as"];
    let ghost rest_ts = ts.skip(1);
    let mut clauses: Vec<Vec<Vec<char>>> = Vec::new();
    let mut current: Vec<Vec<char>> = Vec::new();
    let mut i: usize = 1;
    while i < tokens.len()
        invariant
            1 <= i <= tokens@.len(),
            clause_views(clauses@) == merge_groups(rest_ts.take(i - 1)).0,
            chars_views(current@) == merge_groups(rest_ts.take(i - 1)).1,
        decreases tokens.len() - i,
    {
        proof {
            assert(rest_ts.take(i as int).drop_last() =~= rest_ts.take(i - 1));
            assert(rest_ts.take(i as int).last() == ts[i as int]);
            assert(clause_words@.map_values(|x: &str| x@) =~= seq!["into"@, "at"@, "as"@]);
        }
        let t = slice(tokens[i].as_slice(), 0, tokens[i].len());
        assert(t@ =~= ts[i as int]);
        let is_kw = matches_keyword(t.as_slice(), &clause_words);
        proof {
            assert(is_kw == merge_clause_word(t@)) by {
                assert(clause_words@[0]@ == "into"@);
                assert(clause_words@[1]@ == "at"@);
                assert(clause_words@[2]@ == "as"@);
                if merge_clause_word(t@) {
                    if eq_ignore_ascii_case(t@, "into"@) {
                        assert(eq_ignore_ascii_case(t@, clause_words@[0]@));
                    } else if eq_ignore_ascii_case(t@, "at"@) {
                        assert(eq_ignore_ascii_case(t@, clause_words@[1]@));
                    } else {
                        assert(eq_ignore_ascii_case(t@, clause_words@[2]@));
                    }
                }
            }
        }
        let ghost done0 = clause_views(clauses@);
        let ghost cur0 = chars_views(current@);
        if is_kw {
            if current.len() > 0 {
                clauses.push(current);
                current = Vec::new();
                assert(clause_views(clauses@) =~= done0.push(cur0));
            }
        }
        current.push(t);
        assert(chars_views(current@) =~= (if is_kw && cur0.len() > 0 { Seq::<Seq<char>>::empty() } else { cur0 }).push(ts[i as int]));
        i = i + 1;
    }
    assert(rest_ts.take(i - 1) =~= rest_ts);
    if current.len() > 0 {
        let ghost done0 = clause_views(clauses@);
        let ghost cur0 = chars_views(current@);
        clauses.push(current);
        assert(clause_views(clauses@) =~= done0.push(cur0));
    }
    let ghost cs = clause_views(clauses@);
    assert(cs == merge_clauses(rest_ts));
    let source = slice(tokens[0].as_slice(), 0, tokens[0].len());
    assert(source@ =~= ts[0]);
    let mut parts = vec![keyword_doc(cfg, "MERGE BRANCH"), Doc::Line, Doc::Indent(Box::new(text_doc(source.as_slice())))];
    let ghost p0 = docs_view(parts@);
    assert(p0 =~= seq![
        DocV::Text(keyword_cased("MERGE BRANCH"@, cfg.keyword_case)),
        DocV::Line,
        DocV::Indent(Box::new(DocV::Text(ts[0]))),
    ]);
    let mut c: usize = 0;
    while c < clauses.len()
        invariant
            c <= clauses@.len(),
            cs == clause_views(clauses@),
            docs_view(parts@) == p0 + merge_clause_lines(cs.take(c as int), cfg.keyword_case),
        decreases clauses.len() - c,
    {
        proof {
            assert(cs.take(c + 1).drop_last() =~= cs.take(c as int));
            assert(cs.take(c + 1).last() == cs[c as int]);
        }
        let ghost pre = docs_view(parts@);
        let clause = &clauses[c];
        let ghost cv = chars_views(clause@);
        assert(cv == cs[c as int]);
        if clause.len() > 0 {
            let mut t = case_chars(clause[0].as_slice(), cfg.keyword_case);
            let mut k: usize = 1;
            while k < clause.len()
                invariant
                    1 <= k <= clause@.len(),
                    cv == chars_views(clause@),
                    t@ == keyword_cased(cv[0], cfg.keyword_case) + spaced_tail(cv.drop_first().take(k - 1)),
                decreases clause.len() - k,
            {
                proof {
                    assert(cv.drop_first().take(k as int).drop_last() =~= cv.drop_first().take(k - 1));
                    assert(cv.drop_first().take(k as int).last() == clause@[k as int]@);
                }
                t.push(' ');
                push_all(&mut t, clause[k].as_slice());
                k = k + 1;
            }
            assert(cv.drop_first().take(k - 1) =~= cv.drop_first());
            parts.push(Doc::Line);
            parts.push(Doc::Indent(Box::new(text_doc(t.as_slice()))));
            assert(docs_view(parts@) =~= pre + seq![
                DocV::Line,
                DocV::Indent(Box::new(DocV::Text(keyword_cased(cv[0], cfg.keyword_case) + spaced_tail(cv.drop_first())))),
            ]);
        } else {
            assert(docs_view(parts@) =~= pre + Seq::<DocV>::empty());
        }
        c = c + 1;
    }
    assert(cs.take(c as int) =~= cs);
    Doc::Group(parts)
}

/// Whether the word occurs at `abs` in the lower-cased text with ASCII
/// whitespace (or an end of the text) on both sides.
pub open spec fn standalone_at(hl: Seq<char>, kl: Seq<char>, abs: int) -> bool {
    crate::text::occurs_at(hl, kl, abs) && (abs == 0 || crate::text::is_ascii_ws(hl[abs - 1])) && (
    abs + kl.len() >= hl.len() || crate::text::is_ascii_ws(hl[abs + kl.len()]))
}

/// The first position where the word stands on its own in the text.
#[verifier::opaque]
pub open spec fn first_standalone(hl: Seq<char>, kl: Seq<char>) -> Option<int> {
    if exists|i: int| 0 <= i && standalone_at(hl, kl, i) {
        Some(choose|i: int| 0 <= i && standalone_at(hl, kl, i) && forall|j: int| 0 <= j < i ==> !standalone_at(hl, kl, j))
    } else {
        None
    }
}

/// The first position where the keyword stands as a word of its own in the
/// lower-cased text.
pub fn find_keyword_case_insensitive(haystack: &[char], keyword: &str) -> (r: Option<usize>)
    ensures
        r matches Some(p) ==> standalone_at(crate::text::lower_of(haystack@), crate::text::lower_of(keyword@), p as int),
        r matches Some(p) ==> first_standalone(crate::text::lower_of(haystack@), crate::text::lower_of(keyword@))
            == Some(p as int),
        r is None ==> first_standalone(crate::text::lower_of(haystack@), crate::text::lower_of(keyword@)) is None,
{
    let hl = lower(haystack);
    let kl = lower(chars_of(keyword).as_slice());
    let mut offset: usize = 0;
    loop
        invariant
            offset <= hl@.len() + 1,
            hl@ == crate::text::lower_of(haystack@),
            kl@ == crate::text::lower_of(keyword@),
            forall|j: int| 0 <= j < offset ==> !standalone_at(hl@, kl@, j),
        decreases hl@.len() + 1 - offset,
    {
        match find_from(hl.as_slice(), kl.as_slice(), offset) {
            None => {
                proof {
                    assert forall|j: int| 0 <= j implies !standalone_at(hl@, kl@, j) by {
                        if j >= offset {
                            assert(!crate::text::occurs_at(hl@, kl@, j));
                        }
                    }
                }
                proof {
                    reveal(first_standalone);
                }
                return None;
            },
            Some(abs) => {
                let start_ok = abs == 0 || is_ascii_whitespace(hl[abs - 1]);
                assert(abs + kl.len() <= hl.len());
                let end_pos = abs + kl.len();
                let end_ok = end_pos >= hl.len() || is_ascii_whitespace(hl[end_pos]);
                proof {
                    assert forall|j: int| offset <= j < abs implies !standalone_at(hl@, kl@, j) by {
                        assert(!crate::text::occurs_at(hl@, kl@, j));
                    }
                }
                if start_ok && end_ok {
                    proof {
                        reveal(first_standalone);
                        let a = abs as int;
                        assert(standalone_at(hl@, kl@, a));
                        let w = choose|i: int| 0 <= i && standalone_at(hl@, kl@, i) && forall|j: int| 0 <= j < i ==> !standalone_at(hl@, kl@, j);
                        assert(w == a) by {
                            if w < a {
                                assert(!standalone_at(hl@, kl@, w));
                            } else if w > a {
                                assert(!standalone_at(hl@, kl@, a));
                            }
                        }
                    }
                    return Some(abs);
                }
                assert(!standalone_at(hl@, kl@, abs as int));
                if abs >= hl.len() {
                    proof {
                        reveal(first_standalone);
                        assert forall|j: int| 0 <= j implies !standalone_at(hl@, kl@, j) by {
                            if j > abs {
                                assert(!crate::text::occurs_at(hl@, kl@, j));
                            }
                        }
                    }
                    return None;
                }
                offset = abs + 1;
            },
        }
    }
}

/// The position and keyword of the first standalone `with`, or else of
/// the first standalone `using`.
pub open spec fn options_split(r: Seq<char>) -> Option<(int, Seq<char>)> {
    let lr = crate::text::lower_of(r);
    match first_standalone(lr, crate::text::lower_of("with"@)) {
        Some(p) => Some((p, "WITH"@)),
        None => match first_standalone(lr, crate::text::lower_of("using"@)) {
            Some(p) => Some((p, "USING"@)),
            None => None,
        },
    }
}

/// A position clamped to the length of a text.
pub open spec fn clamp_to(p: int, s: Seq<char>) -> int {
    if p <= s.len() {
        p
    } else {
        s.len() as int
    }
}

/// `HEAD`, the target on an indented line, then the option block on an
/// indented line.
pub open spec fn target_options_doc(head: DocV, r: Seq<char>, pos: int, keyword: Seq<char>, cfg: FormatterConfig) -> DocV {
    let p = clamp_to(pos, r);
    DocV::Group(
        seq![
            head,
            DocV::Line,
            DocV::Indent(Box::new(DocV::Text(trimmed(r.take(p))))),
            DocV::Line,
            DocV::Indent(Box::new(crate::blocks::spec_option_block(keyword, trimmed(r.skip(p)), cfg))),
        ],
    )
}

/// `ACCELERATION`: with its target and option block on indented lines, or
/// the rest on the same line when it fits, otherwise on an indented line.
pub open spec fn acceleration_doc(rest: Seq<char>, cfg: FormatterConfig) -> DocV {
    let r = trimmed(rest);
    let head = keyword_cased("ACCELERATION"@, cfg.keyword_case);
    if r.len() == 0 {
        DocV::Text(head)
    } else {
        match options_split(r) {
            Some((pos, k)) => target_options_doc(DocV::Text(head), r, pos, k, cfg),
            None => if 13 + r.len() <= cfg.line_length {
                DocV::Text(head + seq![' '] + r)
            } else {
                DocV::Group(seq![DocV::Text(head), DocV::Line, DocV::Indent(Box::new(DocV::Text(r)))])
            },
        }
    }
}

fn target_options(head: Doc, r: &[char], pos: usize, keyword: &str, cfg: &FormatterConfig) -> (d: Doc)
    ensures
        d@ == target_options_doc(head@, r@, pos as int, keyword@, *cfg),
{
    let pos = if pos <= r.len() {
        pos
    } else {
        r.len()
    };
    let target = trim(slice(r, 0, pos).as_slice());
    let option_part = trim(slice(r, pos, r.len()).as_slice());
    assert(r@.subrange(0, pos as int) =~= r@.take(pos as int));
    assert(r@.subrange(pos as int, r@.len() as int) =~= r@.skip(pos as int));
    let ghost hv = head@;
    let v = vec![
        head,
        Doc::Line,
        Doc::Indent(Box::new(text_doc(target.as_slice()))),
        Doc::Line,
        Doc::Indent(Box::new(format_option_block(keyword, option_part.as_slice(), cfg))),
    ];
    assert(docs_view(v@) =~= seq![
        hv,
        DocV::Line,
        DocV::Indent(Box::new(DocV::Text(target@))),
        DocV::Line,
        DocV::Indent(Box::new(crate::blocks::spec_option_block(keyword@, option_part@, *cfg))),
    ]);
    Doc::Group(v)
}

fn format_acceleration(rest: &str, cfg: &FormatterConfig) -> (d: Doc)
    ensures
        d@ == acceleration_doc(rest@, *cfg),
{
    let rest_c = trim(chars_of(rest).as_slice());
    if rest_c.len() == 0 {
        return keyword_doc(cfg, "ACCELERATION");
    }
    if let Some((pos, kw)) = find_options_keyword(rest_c.as_slice()) {
        return target_options(keyword_doc(cfg, "ACCELERATION"), rest_c.as_slice(), pos, kw, cfg);
    }
    let inline_len = 13 + rest_c.len() as u128;
    if inline_len <= cfg.line_length as u128 {
        let mut t = cased("ACCELERATION", cfg);
        t.push(' ');
        push_all(&mut t, rest_c.as_slice());
        assert(t@ =~= keyword_cased("ACCELERATION"@, cfg.keyword_case) + seq![' '] + rest_c@);
        text_doc(t.as_slice())
    } else {
        text_group_line_indent(cased("ACCELERATION", cfg).as_slice(), rest_c.as_slice())
    }
}

/// The position and keyword of the first standalone `with`, or else of the
/// first standalone `using`.
fn find_options_keyword(rest: &[char]) -> (r: Option<(usize, &'static str)>)
    ensures
        r matches Some((p, k)) ==> options_split(rest@) == Some((p as int, k@)),
        r is None ==> options_split(rest@) is None,
{
    proof {
        reveal_strlit("WITH");
        reveal_strlit("USING");
    }
    match find_keyword_case_insensitive(rest, "with") {
        Some(p) => Some((p, "WITH")),
        None => match find_keyword_case_insensitive(rest, "using") {
            Some(p) => Some((p, "USING")),
            None => None,
        },
    }
}

/// `HEAD rest` on one line when it fits, otherwise the rest on an
/// indented line.
pub open spec fn head_rest_doc(head: Seq<char>, rest: Seq<char>, cfg: FormatterConfig) -> DocV {
    if head.len() + 1 + rest.len() <= cfg.line_length {
        DocV::Text(head + seq![' '] + rest)
    } else {
        DocV::Group(seq![DocV::Text(head), DocV::Line, DocV::Indent(Box::new(DocV::Text(rest)))])
    }
}

/// `HEAD rest` inline when it fits, otherwise the rest on an indented line.
fn head_then_rest(head: Vec<char>, rest: &[char], cfg: &FormatterConfig) -> (d: Doc)
    ensures
        d@ == head_rest_doc(head@, rest@, *cfg),
{
    let inline_len = head.len() as u128 + 1 + rest.len() as u128;
    if inline_len <= cfg.line_length as u128 {
        let mut t = head;
        t.push(' ');
        push_all(&mut t, rest);
        assert(t@ =~= head@ + seq![' '] + rest@);
        text_doc(t.as_slice())
    } else {
        text_group_line_indent(head.as_slice(), rest)
    }
}


/// `<verb> ACCELERATION`: with its target and option block on indented
/// lines, or the rest after the head as it fits.
pub open spec fn acceleration_manage_doc(verb: Seq<char>, rest: Seq<char>, cfg: FormatterConfig) -> DocV {
    let head = keyword_cased(verb, cfg.keyword_case) + seq![' '] + keyword_cased("ACCELERATION"@, cfg.keyword_case);
    let r = trimmed(rest);
    if r.len() == 0 {
        DocV::Text(head)
    } else {
        match options_split(r) {
            Some((pos, k)) => target_options_doc(DocV::Text(head), r, pos, k, cfg),
            None => head_rest_doc(head, r, cfg),
        }
    }
}

fn format_acceleration_manage(verb: &str, rest: &str, cfg: &FormatterConfig) -> (d: Doc)
    ensures
        d@ == acceleration_manage_doc(verb@, rest@, *cfg),
{
    let mut head = cased_chars_str(verb, cfg);
    head.push(' ');
    push_all(&mut head, cased("ACCELERATION", cfg).as_slice());
    assert(head@ =~= keyword_cased(verb@, cfg.keyword_case) + seq![' '] + keyword_cased("ACCELERATION"@, cfg.keyword_case));
    let rest_c = trim(chars_of(rest).as_slice());
    if rest_c.len() == 0 {
        return text_doc(head.as_slice());
    }
    if let Some((pos, kw)) = find_options_keyword(rest_c.as_slice()) {
        return target_options(text_doc(head.as_slice()), rest_c.as_slice(), pos, kw, cfg);
    }
    head_then_rest(head, rest_c.as_slice(), cfg)
}

/// The first line of `ALTER TABLE ... CREATE ... REFLECTION`.
pub open spec fn reflection_table_line(cmd: AlterTableReflectionCommand, kc: crate::config::KeywordCase) -> Seq<char> {
    keyword_cased("ALTER TABLE"@, kc) + seq![' '] + cmd.table@
}

/// `CREATE [<kind>] REFLECTION [<name>]`.
pub open spec fn reflection_create_line(cmd: AlterTableReflectionCommand, kc: crate::config::KeywordCase) -> Seq<char> {
    keyword_cased("CREATE"@, kc) + (match cmd.kind {
        Some(k) => seq![' '] + keyword_cased(k@, kc),
        None => Seq::empty(),
    }) + seq![' '] + keyword_cased("REFLECTION"@, kc) + (match cmd.name {
        Some(n) => seq![' '] + n@,
        None => Seq::empty(),
    })
}

/// The layout of a reflection clause `LABEL value`: a parenthesised value
/// as a parenthesised clause of its top-level pieces (one per line when
/// there are several), anything else after the label.
#[verifier::opaque]
pub open spec fn reflection_clause_ok(label: Seq<char>, value: Seq<char>, cfg: FormatterConfig, d: DocV) -> bool {
    let t = trimmed(value);
    if t.len() >= 2 && t[0] == '(' && t.last() == ')' {
        exists|items: Seq<String>|
            crate::blocks::strings_view(items) == crate::blocks::top_level_pieces(t.subrange(1, t.len() - 1))
                && d == #[trigger] crate::blocks::spec_parenthesized_clause(label, items, cfg, true)
    } else {
        d == DocV::Group(
            seq![DocV::Text(keyword_cased(label, cfg.keyword_case))] + (if t.len() > 0 {
                seq![DocV::Space, DocV::Text(t)]
            } else {
                Seq::empty()
            }),
        )
    }
}

/// Each clause on a line of its own, laid out as `reflection_clause_ok`
/// says.
pub open spec fn clause_lines_ok(clauses: Seq<(String, String)>, lines: Seq<DocV>, cfg: FormatterConfig) -> bool
    decreases clauses.len(),
{
    if clauses.len() == 0 {
        lines.len() == 0
    } else {
        lines.len() >= 2 && clause_lines_ok(clauses.drop_last(), lines.take(lines.len() - 2), cfg)
            && lines[lines.len() - 2] == DocV::Line && reflection_clause_ok(
            clauses.last().0@,
            clauses.last().1@,
            cfg,
            lines.last(),
        )
    }
}

/// `ALTER TABLE <table>`, `CREATE ... REFLECTION ...` and each clause on a
/// line of its own.
pub open spec fn alter_table_reflection_ok(cmd: AlterTableReflectionCommand, cfg: FormatterConfig, d: DocV) -> bool {
    d matches DocV::Group(v) && v.len() >= 3 && v.take(3) == seq![
        DocV::Text(reflection_table_line(cmd, cfg.keyword_case)),
        DocV::Line,
        DocV::Text(reflection_create_line(cmd, cfg.keyword_case)),
    ] && clause_lines_ok(cmd.clauses@, v.skip(3), cfg)
}

fn format_alter_table_reflection(cmd: &AlterTableReflectionCommand, cfg: &FormatterConfig) -> (d: Doc)
    ensures
        alter_table_reflection_ok(*cmd, *cfg, d@),
{
    let kc = cfg.keyword_case;
    let mut first = cased("ALTER TABLE", cfg);
    first.push(' ');
    push_str(&mut first, cmd.table.as_str());
    assert(first@ =~= reflection_table_line(*cmd, kc));
    let mut parts = vec![text_doc(first.as_slice())];
    let mut create = cased("CREATE", cfg);
    let ghost c0 = create@;
    if let Some(kind) = &cmd.kind {
        create.push(' ');
        push_all(&mut create, cased_chars_str(kind.as_str(), cfg).as_slice());
    }
    let ghost c1 = create@;
    assert(c1 =~= c0 + (match cmd.kind {
        Some(k) => seq![' '] + keyword_cased(k@, kc),
        None => Seq::<char>::empty(),
    }));
    create.push(' ');
    push_all(&mut create, cased("REFLECTION", cfg).as_slice());
    let ghost c2 = create@;
    if let Some(name) = &cmd.name {
        create.push(' ');
        push_str(&mut create, name.as_str());
    }
    assert(create@ =~= c2 + (match cmd.name {
        Some(n) => seq![' '] + n@,
        None => Seq::<char>::empty(),
    }));
    assert(create@ =~= reflection_create_line(*cmd, kc));
    parts.push(Doc::Line);
    parts.push(text_doc(create.as_slice()));
    let ghost head3 = seq![
        DocV::Text(reflection_table_line(*cmd, cfg.keyword_case)),
        DocV::Line,
        DocV::Text(reflection_create_line(*cmd, cfg.keyword_case)),
    ];
    assert(docs_view(parts@) =~= head3);
    let mut i: usize = 0;
    while i < cmd.clauses.len()
        invariant
            i <= cmd.clauses@.len(),
            docs_view(parts@).len() >= 3,
            docs_view(parts@).take(3) == head3,
            clause_lines_ok(cmd.clauses@.take(i as int), docs_view(parts@).skip(3), *cfg),
        decreases cmd.clauses.len() - i,
    {
        let (label, value) = &cmd.clauses[i];
        let ghost pre = docs_view(parts@);
        parts.push(Doc::Line);
        let cd = format_reflection_clause(label.as_str(), value.as_str(), cfg);
        let ghost cv = cd@;
        parts.push(cd);
        proof {
            let post = docs_view(parts@);
            assert(post =~= pre + seq![DocV::Line, cv]);
            assert(post.take(3) =~= pre.take(3));
            let l1 = post.skip(3);
            assert(l1.take(l1.len() - 2) =~= pre.skip(3));
            assert(cmd.clauses@.take(i + 1).drop_last() =~= cmd.clauses@.take(i as int));
            assert(cmd.clauses@.take(i + 1).last() == cmd.clauses@[i as int]);
            assert(l1[l1.len() - 2] == DocV::Line);
            assert(l1.last() == cv);
        }
        i = i + 1;
    }
    assert(cmd.clauses@.take(i as int) =~= cmd.clauses@);
    Doc::Group(parts)
}

fn format_reflection_clause(label: &str, value: &str, cfg: &FormatterConfig) -> (d: Doc)
    ensures
        reflection_clause_ok(label@, value@, *cfg, d@),
{
    proof {
        reveal(reflection_clause_ok);
    }
    let t = trim(chars_of(value).as_slice());
    if t.len() >= 2 && t[0] == '(' && t[t.len() - 1] == ')' {
        let inner = slice(t.as_slice(), 1, t.len() - 1);
        let items = split_top_level_commas(inner.as_slice());
        let d = format_parenthesized_clause(label, &items, cfg, true);
        assert(crate::blocks::strings_view(items@) == crate::blocks::top_level_pieces(t@.subrange(1, t@.len() - 1)));
        assert(d@ == crate::blocks::spec_parenthesized_clause(label@, items@, *cfg, true));
        return d;
    }
    let mut parts = vec![keyword_doc(cfg, label)];
    if t.len() > 0 {
        parts.push(Doc::Space);
        parts.push(text_doc(t.as_slice()));
    }
    assert(docs_view(parts@) =~= seq![DocV::Text(keyword_cased(label@, cfg.keyword_case))] + (if t@.len() > 0 {
        seq![DocV::Space, DocV::Text(t@)]
    } else {
        Seq::<DocV>::empty()
    }));
    Doc::Group(parts)
}

/// `<verb> REFLECTION`: with its target and options on indented lines, or
/// the rest after the head as it fits.
pub open spec fn reflection_doc(verb: Seq<char>, rest: Seq<char>, cfg: FormatterConfig) -> DocV {
    let head = keyword_cased(verb, cfg.keyword_case) + seq![' '] + keyword_cased("REFLECTION"@, cfg.keyword_case);
    let r = trimmed(rest);
    if r.len() == 0 {
        DocV::Text(head)
    } else {
        match options_split(r) {
            Some((pos, k)) => {
                let p = clamp_to(pos, r);
                reflection_with_options_doc(head, trimmed(r.take(p)), k, trimmed(r.skip(p)), cfg)
            },
            None => head_rest_doc(head, r, cfg),
        }
    }
}

fn format_reflection(verb: &str, rest: &str, cfg: &FormatterConfig) -> (d: Doc)
    ensures
        d@ == reflection_doc(verb@, rest@, *cfg),
{
    let mut head = cased_chars_str(verb, cfg);
    head.push(' ');
    push_all(&mut head, cased("REFLECTION", cfg).as_slice());
    assert(head@ =~= keyword_cased(verb@, cfg.keyword_case) + seq![' '] + keyword_cased("REFLECTION"@, cfg.keyword_case));
    let rest_c = trim(chars_of(rest).as_slice());
    if rest_c.len() == 0 {
        return text_doc(head.as_slice());
    }
    if let Some((pos, kw)) = find_options_keyword(rest_c.as_slice()) {
        let pos = if pos <= rest_c.len() {
            pos
        } else {
            rest_c.len()
        };
        let target = trim(slice(rest_c.as_slice(), 0, pos).as_slice());
        let options = trim(slice(rest_c.as_slice(), pos, rest_c.len()).as_slice());
        assert(rest_c@.subrange(0, pos as int) =~= rest_c@.take(pos as int));
        assert(rest_c@.subrange(pos as int, rest_c@.len() as int) =~= rest_c@.skip(pos as int));
        return format_reflection_with_options(head, target.as_slice(), kw, options.as_slice(), cfg);
    }
    head_then_rest(head, rest_c.as_slice(), cfg)
}

/// The head, the target on an indented line when there is one, then the
/// options on an indented line.
pub open spec fn reflection_with_options_doc(
    head: Seq<char>,
    target: Seq<char>,
    keyword: Seq<char>,
    options: Seq<char>,
    cfg: FormatterConfig,
) -> DocV {
    DocV::Group(
        seq![DocV::Text(head)] + (if target.len() > 0 {
            seq![DocV::Line, DocV::Indent(Box::new(DocV::Text(target)))]
        } else {
            Seq::empty()
        }) + seq![DocV::Line, DocV::Indent(Box::new(reflection_options_doc(keyword, options, cfg)))],
    )
}

fn format_reflection_with_options(
    head: Vec<char>,
    target: &[char],
    keyword: &str,
    options: &[char],
    cfg: &FormatterConfig,
) -> (d: Doc)
    ensures
        d@ == reflection_with_options_doc(head@, target@, keyword@, options@, *cfg),
{
    let mut parts = vec![text_doc(head.as_slice())];
    assert(docs_view(parts@) =~= seq![DocV::Text(head@)]);
    if target.len() > 0 {
        parts.push(Doc::Line);
        parts.push(Doc::Indent(Box::new(text_doc(target))));
    }
    let ghost p1 = docs_view(parts@);
    assert(p1 =~= seq![DocV::Text(head@)] + (if target@.len() > 0 {
        seq![DocV::Line, DocV::Indent(Box::new(DocV::Text(target@)))]
    } else {
        Seq::<DocV>::empty()
    }));
    let option_doc = format_reflection_options(keyword, options, cfg);
    let ghost ov = option_doc@;
    parts.push(Doc::Line);
    parts.push(Doc::Indent(Box::new(option_doc)));
    assert(docs_view(parts@) =~= p1 + seq![DocV::Line, DocV::Indent(Box::new(ov))]);
    Doc::Group(parts)
}

/// The options without the keyword in front of them.
pub open spec fn options_rest(keyword: Seq<char>, options: Seq<char>) -> Seq<char> {
    let t = trimmed(options);
    let lk = crate::text::lower_of(keyword);
    if has_prefix(crate::text::lower_of(t), lk) {
        trimmed(t.skip(if lk.len() <= t.len() { lk.len() as int } else { t.len() as int }))
    } else {
        t
    }
}

/// Each clause as `LABEL value`, the label in keyword case.
pub open spec fn reflection_clause_docs(cs: Seq<(Seq<char>, Seq<char>)>, kc: crate::config::KeywordCase) -> Seq<DocV> {
    cs.map_values(|c: (Seq<char>, Seq<char>)| DocV::Group(seq![DocV::Text(keyword_cased(c.0, kc)), DocV::Space, DocV::Text(c.1)]))
}

/// `KEYWORD` and the options: each clause on an indented line, or the
/// options after a space when no clause is found.
pub open spec fn reflection_options_doc(keyword: Seq<char>, options: Seq<char>, cfg: FormatterConfig) -> DocV {
    let rest = options_rest(keyword, options);
    let clauses = reflection_clauses(rest);
    if clauses.len() == 0 {
        DocV::Group(seq![DocV::Text(keyword_cased(keyword, cfg.keyword_case)), DocV::Space, DocV::Text(rest)])
    } else {
        DocV::Group(
            seq![
                DocV::Text(keyword_cased(keyword, cfg.keyword_case)),
                DocV::Line,
                DocV::Indent(
                    Box::new(DocV::Group(crate::blocks::sep_list(reflection_clause_docs(clauses, cfg.keyword_case), seq![DocV::Line]))),
                ),
            ],
        )
    }
}

fn format_reflection_options(keyword: &str, options: &[char], cfg: &FormatterConfig) -> (d: Doc)
    ensures
        d@ == reflection_options_doc(keyword@, options@, *cfg),
{
    let t = trim(options);
    let lower_kw = lower(chars_of(keyword).as_slice());
    let lt = lower(t.as_slice());
    let rest = if starts_with(lt.as_slice(), lower_kw.as_slice()) {
        let k = if lower_kw.len() <= t.len() {
            lower_kw.len()
        } else {
            t.len()
        };
        let r = trim(slice(t.as_slice(), k, t.len()).as_slice());
        assert(t@.subrange(k as int, t@.len() as int) =~= t@.skip(k as int));
        r
    } else {
        t
    };
    assert(rest@ == options_rest(keyword@, options@));
    let clauses = split_reflection_clauses(rest.as_slice());
    let ghost cs = pair_views(clauses@);
    if clauses.len() == 0 {
        let v = vec![keyword_doc(cfg, keyword), Doc::Space, text_doc(rest.as_slice())];
        assert(docs_view(v@) =~= seq![DocV::Text(keyword_cased(keyword@, cfg.keyword_case)), DocV::Space, DocV::Text(rest@)]);
        return Doc::Group(v);
    }
    let ghost items = reflection_clause_docs(cs, cfg.keyword_case);
    let mut lines: Vec<Doc> = Vec::new();
    let mut i: usize = 0;
    while i < clauses.len()
        invariant
            i <= clauses@.len(),
            cs == pair_views(clauses@),
            items == reflection_clause_docs(cs, cfg.keyword_case),
            i > 0 ==> docs_view(lines@) == crate::blocks::sep_list(items.take(i as int), seq![DocV::Line]) + seq![DocV::Line]
                || i == clauses@.len(),
            i < clauses@.len() && i > 0 ==> docs_view(lines@) == crate::blocks::sep_list(items.take(i as int), seq![DocV::Line]) + seq![DocV::Line],
            i == clauses@.len() ==> docs_view(lines@) == crate::blocks::sep_list(items.take(i as int), seq![DocV::Line]),
            i == 0 ==> lines@.len() == 0,
        decreases clauses.len() - i,
    {
        let ghost pre = docs_view(lines@);
        let (label, value) = &clauses[i];
        let label_doc = Doc::Text(apply_keyword_case_chars(label.as_slice(), cfg));
        let g = vec![label_doc, Doc::Space, text_doc(value.as_slice())];
        assert(docs_view(g@) =~= seq![DocV::Text(keyword_cased(label@, cfg.keyword_case)), DocV::Space, DocV::Text(value@)]);
        assert(items[i as int] == DocV::Group(seq![DocV::Text(keyword_cased(label@, cfg.keyword_case)), DocV::Space, DocV::Text(value@)]));
        lines.push(Doc::Group(g));
        proof {
            assert(items.take(i + 1).drop_last() =~= items.take(i as int));
            assert(items.take(i + 1).last() == items[i as int]);
            if i == 0 {
                assert(items.take(1) =~= seq![items[0]]);
                assert(docs_view(lines@) =~= crate::blocks::sep_list(items.take(1), seq![DocV::Line]));
            } else {
                assert(docs_view(lines@) =~= crate::blocks::sep_list(items.take(i as int), seq![DocV::Line]) + seq![DocV::Line] + seq![items[i as int]]);
            }
        }
        if i + 1 < clauses.len() {
            lines.push(Doc::Line);
        }
        i = i + 1;
    }
    assert(items.take(i as int) =~= items);
    let ghost lv = docs_view(lines@);
    let body = Doc::Group(lines);
    assert(body@ == DocV::Group(lv));
    let ind = Doc::Indent(Box::new(body));
    assert(ind@ == DocV::Indent(Box::new(DocV::Group(lv))));
    let kd = keyword_doc(cfg, keyword);
    let v = vec![kd, Doc::Line, ind];
    assert(docs_view(v@) =~= seq![
        DocV::Text(keyword_cased(keyword@, cfg.keyword_case)),
        DocV::Line,
        DocV::Indent(Box::new(DocV::Group(lv))),
    ]);
    Doc::Group(v)
}

/// The reflection keywords: label and lower-case form.
pub open spec fn reflection_keywords() -> Seq<(Seq<char>, Seq<char>)> {
    seq![
        ("TABLE"@, "table"@),
        ("DISPLAY NAME"@, "display name"@),
        ("PARTITION BY"@, "partition by"@),
        ("DISTRIBUTE BY"@, "distribute by"@),
        ("SORT BY"@, "sort by"@),
    ]
}

/// The first occurrence of a word in a text.
#[verifier::opaque]
pub open spec fn first_occurrence(s: Seq<char>, p: Seq<char>) -> Option<int> {
    if exists|i: int| 0 <= i && crate::text::occurs_at(s, p, i) {
        Some(choose|i: int| 0 <= i && crate::text::occurs_at(s, p, i) && forall|j: int| 0 <= j < i ==> !crate::text::occurs_at(s, p, j))
    } else {
        None
    }
}

/// Where a position goes among positions kept in order: after every
/// position not greater than it.
pub open spec fn insert_index(ps: Seq<(int, int)>, p: int) -> int
    decreases ps.len(),
{
    if ps.len() == 0 {
        0
    } else if ps.last().0 > p {
        insert_index(ps.drop_last(), p)
    } else {
        ps.len() as int
    }
}

/// The first positions of the first `k` reflection keywords in the text,
/// each with its keyword's index, in order of position (ties in keyword
/// order).
pub open spec fn keyword_positions(low: Seq<char>, k: nat) -> Seq<(int, int)>
    decreases k,
{
    if k == 0 {
        Seq::empty()
    } else {
        let ps = keyword_positions(low, (k - 1) as nat);
        match first_occurrence(low, reflection_keywords()[k - 1].1) {
            Some(p) => ps.insert(insert_index(ps, p), (p, k - 1)),
            None => ps,
        }
    }
}

/// The first whitespace position at or after `i`, or the length.
pub open spec fn first_ws_from(s: Seq<char>, i: int) -> int
    decreases s.len() - i,
{
    if i >= s.len() || i < 0 || crate::text::is_ws(s[i]) {
        i
    } else {
        first_ws_from(s, i + 1)
    }
}

/// The clause before the first keyword: `TABLE <value>` when it starts with
/// `table `, otherwise its first word upper-cased and the rest.
pub open spec fn prefix_clause(prefix: Seq<char>) -> Seq<(Seq<char>, Seq<char>)> {
    if prefix.len() == 0 {
        Seq::empty()
    } else if has_prefix(crate::text::lower_of(prefix), "table "@) && prefix.len() >= 5 {
        seq![("TABLE"@, trimmed(prefix.skip(5)))]
    } else {
        let sp = first_ws_from(prefix, 0);
        seq![
            (
                crate::text::upper_of(prefix.take(sp)),
                if sp < prefix.len() {
                    trimmed(prefix.skip(sp + 1))
                } else {
                    Seq::empty()
                },
            ),
        ]
    }
}

/// The clause of the keyword at position `idx`: its label and the text up
/// to the next keyword, without the keyword.
pub open spec fn segment_clause(options: Seq<char>, low_len: int, ps: Seq<(int, int)>, idx: int) -> Seq<(Seq<char>, Seq<char>)> {
    let start = ps[idx].0;
    let kw = reflection_keywords()[ps[idx].1];
    let end = if idx + 1 < ps.len() {
        ps[idx + 1].0
    } else {
        low_len
    };
    if start < end && end <= options.len() {
        let segment = trimmed(options.subrange(start, end));
        let cut = if kw.1.len() <= segment.len() {
            kw.1.len() as int
        } else {
            segment.len() as int
        };
        seq![(kw.0, trimmed(segment.skip(cut)))]
    } else {
        Seq::empty()
    }
}

pub open spec fn segment_clauses(options: Seq<char>, low_len: int, ps: Seq<(int, int)>, n: nat) -> Seq<(Seq<char>, Seq<char>)>
    decreases n,
{
    if n == 0 {
        Seq::empty()
    } else {
        segment_clauses(options, low_len, ps, (n - 1) as nat) + segment_clause(options, low_len, ps, n - 1)
    }
}

/// Reflection options as `(LABEL, value)` pairs: the text before the first
/// keyword, then each keyword's clause in text order.
pub open spec fn reflection_clauses(options: Seq<char>) -> Seq<(Seq<char>, Seq<char>)> {
    let low = crate::text::lower_of(options);
    let ps = keyword_positions(low, 5);
    let pe = if ps.len() > 0 {
        ps[0].0
    } else {
        low.len() as int
    };
    let prefix_end = if pe <= options.len() {
        pe
    } else {
        options.len() as int
    };
    prefix_clause(trimmed(options.take(prefix_end))) + segment_clauses(options, low.len() as int, ps, ps.len())
}

pub open spec fn pair_views(v: Seq<(Vec<char>, Vec<char>)>) -> Seq<(Seq<char>, Seq<char>)> {
    v.map_values(|p: (Vec<char>, Vec<char>)| (p.0@, p.1@))
}

pub open spec fn usize_pairs(v: Seq<(usize, usize)>) -> Seq<(int, int)> {
    v.map_values(|p: (usize, usize)| (p.0 as int, p.1 as int))
}

/// The first occurrence found from the start.
fn first_occurrence_of(s: &[char], p: &[char]) -> (r: Option<usize>)
    ensures
        r matches Some(i) ==> first_occurrence(s@, p@) == Some(i as int),
        r is None ==> first_occurrence(s@, p@) is None,
{
    let r = find_from(s, p, 0);
    proof {
        reveal(first_occurrence);
        if let Some(i) = r {
            let w = choose|k: int| 0 <= k && crate::text::occurs_at(s@, p@, k) && forall|j: int| 0 <= j < k ==> !crate::text::occurs_at(s@, p@, j);
            assert(w == i) by {
                if w < i {
                    assert(!crate::text::occurs_at(s@, p@, w));
                } else if w > i {
                    assert(!crate::text::occurs_at(s@, p@, i as int));
                }
            }
        }
    }
    r
}

/// Where a position goes among ordered positions.
fn insertion_point(positions: &Vec<(usize, usize)>, pos: usize) -> (at: usize)
    ensures
        at as int == insert_index(usize_pairs(positions@), pos as int),
        at <= positions@.len(),
{
    let ghost ps = usize_pairs(positions@);
    let mut at = positions.len();
    assert(ps.take(at as int) =~= ps);
    while at > 0 && positions[at - 1].0 > pos
        invariant
            at <= positions@.len(),
            ps == usize_pairs(positions@),
            insert_index(ps.take(at as int), pos as int) == insert_index(ps, pos as int),
        decreases at,
    {
        assert(ps.take(at as int).drop_last() =~= ps.take(at - 1));
        at = at - 1;
    }
    proof {
        if at > 0 {
            assert(ps.take(at as int).last() == ps[at - 1]);
        }
    }
    at
}

/// Splits reflection options into `(LABEL, value)` pairs at the first
/// occurrence of each reflection keyword (`TABLE`, `DISPLAY NAME`,
/// `PARTITION BY`, `DISTRIBUTE BY`, `SORT BY`), in text order; text before
/// the first keyword becomes a clause of its own.
#[verifier::loop_isolation(false)]
fn split_reflection_clauses(options: &[char]) -> (r: Vec<(Vec<char>, Vec<char>)>)
    ensures
        pair_views(r@) == reflection_clauses(options@),
{
    let low = lower(options);
    let keywords: [(&str, &str); 5] = [
        ("TABLE", "table"),
        ("DISPLAY NAME", "display name"),
        ("PARTITION BY", "partition by"),
        ("DISTRIBUTE BY", "distribute by"),
        ("SORT BY", "sort by"),
    ];
    assert(keywords@.map_values(|x: (&str, &str)| (x.0@, x.1@)) =~= reflection_keywords());
    let mut positions: Vec<(usize, usize)> = Vec::new();
    let mut k: usize = 0;
    assert(usize_pairs(positions@) =~= keyword_positions(low@, 0));
    while k < 5
        invariant
            k <= 5,
            usize_pairs(positions@) == keyword_positions(low@, k as nat),
            forall|j: int| 0 <= j < positions@.len() ==> #[trigger] positions@[j].1 < 5,
        decreases 5 - k,
    {
        assert(keywords@.map_values(|x: (&str, &str)| (x.0@, x.1@))[k as int] == (keywords@[k as int].0@, keywords@[k as int].1@));
        let kwc = chars_of(keywords[k].1);
        if let Some(pos) = first_occurrence_of(low.as_slice(), kwc.as_slice()) {
            let at = insertion_point(&positions, pos);
            let ghost before = usize_pairs(positions@);
            positions.insert(at, (pos, k));
            assert(usize_pairs(positions@) =~= before.insert(at as int, (pos as int, k as int)));
        }
        k = k + 1;
    }
    let ghost ps = usize_pairs(positions@);
    assert(ps == keyword_positions(low@, 5));
    let mut clauses: Vec<(Vec<char>, Vec<char>)> = Vec::new();
    let prefix_end = if positions.len() > 0 {
        positions[0].0
    } else {
        low.len()
    };
    let prefix_end = if prefix_end <= options.len() {
        prefix_end
    } else {
        options.len()
    };
    let prefix = trim(slice(options, 0, prefix_end).as_slice());
    assert(options@.subrange(0, prefix_end as int) =~= options@.take(prefix_end as int));
    if prefix.len() > 0 {
        let prefix_lower = lower(prefix.as_slice());
        proof {
            reveal_strlit("table ");
        }
        if starts_with_str(prefix_lower.as_slice(), "table ") && prefix.len() >= 5 {
            let value = trim(slice(prefix.as_slice(), 5, prefix.len()).as_slice());
            assert(prefix@.subrange(5, prefix@.len() as int) =~= prefix@.skip(5));
            clauses.push((chars_of("TABLE"), value));
        } else {
            let mut sp: usize = 0;
            while sp < prefix.len() && !is_whitespace(prefix[sp])
                invariant
                    sp <= prefix@.len(),
                    first_ws_from(prefix@, sp as int) == first_ws_from(prefix@, 0),
                decreases prefix.len() - sp,
            {
                sp = sp + 1;
            }
            let label = crate::text::upper(slice(prefix.as_slice(), 0, sp).as_slice());
            assert(prefix@.subrange(0, sp as int) =~= prefix@.take(sp as int));
            let value = if sp < prefix.len() {
                let v = trim(slice(prefix.as_slice(), sp + 1, prefix.len()).as_slice());
                assert(prefix@.subrange(sp + 1, prefix@.len() as int) =~= prefix@.skip(sp + 1));
                v
            } else {
                Vec::new()
            };
            clauses.push((label, value));
        }
    }
    let ghost pc = pair_views(clauses@);
    assert(pc =~= prefix_clause(trimmed(options@.take(prefix_end as int))));
    let mut idx: usize = 0;
    while idx < positions.len()
        invariant
            idx <= positions@.len(),
            ps == usize_pairs(positions@),
            forall|j: int| 0 <= j < positions@.len() ==> #[trigger] positions@[j].1 < 5,
            pair_views(clauses@) == pc + segment_clauses(options@, low@.len() as int, ps, idx as nat),
        decreases positions.len() - idx,
    {
        let ghost before = pair_views(clauses@);
        let (start, kw_idx) = positions[idx];
        let end = if idx + 1 < positions.len() {
            positions[idx + 1].0
        } else {
            low.len()
        };
        assert(keywords@.map_values(|x: (&str, &str)| (x.0@, x.1@))[kw_idx as int] == (keywords@[kw_idx as int].0@, keywords@[kw_idx as int].1@));
        if start < end && end <= options.len() {
            let segment = trim(slice(options, start, end).as_slice());
            let kwlen = keywords[kw_idx].1.unicode_len();
            let cut = if kwlen <= segment.len() {
                kwlen
            } else {
                segment.len()
            };
            let value = trim(slice(segment.as_slice(), cut, segment.len()).as_slice());
            assert(segment@.subrange(cut as int, segment@.len() as int) =~= segment@.skip(cut as int));
            clauses.push((chars_of(keywords[kw_idx].0), value));
            assert(pair_views(clauses@) =~= before + segment_clause(options@, low@.len() as int, ps, idx as int));
        } else {
            assert(pair_views(clauses@) =~= before + segment_clause(options@, low@.len() as int, ps, idx as int));
        }
        idx = idx + 1;
    }
    clauses
}

/// `COPY INTO TABLE` text split into the target and its `USING` and `WITH`
/// blocks: the target runs to the first standalone `using` (or else
/// `with`); the `USING` block runs to a later standalone `with`.
pub open spec fn copy_into_parts(rest: Seq<char>) -> (Seq<char>, Option<Seq<char>>, Option<Seq<char>>) {
    let lr = crate::text::lower_of(rest);
    let u = first_standalone(lr, crate::text::lower_of("using"@));
    let w = first_standalone(lr, crate::text::lower_of("with"@));
    let first = match u {
        Some(p) => Some(p),
        None => w,
    };
    match first {
        None => (rest, None, None),
        Some(p0) => {
            let pos = clamp_to(p0, rest);
            let target = trimmed(rest.take(pos));
            let remainder = trimmed(rest.skip(pos));
            match u {
                Some(upos) => {
                    let split = if w is Some && w.unwrap() > upos {
                        clamp_to(w.unwrap() - pos, remainder)
                    } else {
                        remainder.len() as int
                    };
                    let rem = trimmed(remainder.skip(split));
                    (
                        target,
                        Some(trimmed(remainder.take(split))),
                        if rem.len() > 0 {
                            Some(rem)
                        } else {
                            None
                        },
                    )
                },
                None => (target, None, Some(remainder)),
            }
        },
    }
}

/// Splits `COPY INTO TABLE` text into the target and its `USING` and `WITH`
/// blocks.
fn split_copy_into_parts(rest: &[char]) -> (r: (Vec<char>, Option<Vec<char>>, Option<Vec<char>>))
    ensures
        r.0@ == copy_into_parts(rest@).0,
        r.1 is Some <==> copy_into_parts(rest@).1 is Some,
        r.1 matches Some(u) ==> u@ == copy_into_parts(rest@).1.unwrap(),
        r.2 is Some <==> copy_into_parts(rest@).2 is Some,
        r.2 matches Some(w) ==> w@ == copy_into_parts(rest@).2.unwrap(),
{
    let using_pos = find_keyword_case_insensitive(rest, "using");
    let with_pos = find_keyword_case_insensitive(rest, "with");
    let first = match using_pos {
        Some(p) => Some(p),
        None => with_pos,
    };
    match first {
        None => (slice(rest, 0, rest.len()), None, None),
        Some(pos) => {
            let pos = if pos <= rest.len() {
                pos
            } else {
                rest.len()
            };
            let target = trim(slice(rest, 0, pos).as_slice());
            let remainder = trim(slice(rest, pos, rest.len()).as_slice());
            assert(rest@.subrange(0, pos as int) =~= rest@.take(pos as int));
            assert(rest@.subrange(pos as int, rest@.len() as int) =~= rest@.skip(pos as int));
            match using_pos {
                Some(upos) => {
                    let split = match with_pos {
                        Some(wpos) if wpos > upos => {
                            let cut = wpos - pos;
                            if cut <= remainder.len() {
                                cut
                            } else {
                                remainder.len()
                            }
                        },
                        _ => remainder.len(),
                    };
                    let using_text = trim(slice(remainder.as_slice(), 0, split).as_slice());
                    let rem = trim(slice(remainder.as_slice(), split, remainder.len()).as_slice());
                    assert(remainder@.subrange(0, split as int) =~= remainder@.take(split as int));
                    assert(remainder@.subrange(split as int, remainder@.len() as int) =~= remainder@.skip(split as int));
                    let with_block = if rem.len() > 0 {
                        Some(rem)
                    } else {
                        None
                    };
                    (target, Some(using_text), with_block)
                },
                None => (target, None, Some(remainder)),
            }
        },
    }
}

/// `COPY INTO TABLE`, the target on an indented line, then the `USING` and
/// `WITH` blocks on indented lines.
pub open spec fn copy_into_doc(rest: Seq<char>, cfg: FormatterConfig) -> DocV {
    let r = trimmed(rest);
    let head = DocV::Text(keyword_cased("COPY INTO TABLE"@, cfg.keyword_case));
    if r.len() == 0 {
        head
    } else {
        let (target, using, with) = copy_into_parts(r);
        DocV::Group(
            seq![head, DocV::Line, DocV::Indent(Box::new(DocV::Text(target)))] + (match using {
                Some(u) => seq![DocV::Line, DocV::Indent(Box::new(crate::blocks::spec_option_block("USING"@, u, cfg)))],
                None => Seq::empty(),
            }) + (match with {
                Some(w) => seq![DocV::Line, DocV::Indent(Box::new(crate::blocks::spec_option_block("WITH"@, w, cfg)))],
                None => Seq::empty(),
            }),
        )
    }
}

} // verus!
