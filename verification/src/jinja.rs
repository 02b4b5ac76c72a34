//! Jinja/dbt template tags: detection, protection behind SQL-safe tokens,
//! and restoration.
use vstd::prelude::*;

use crate::fragments::next_is;
use crate::patterns::{marker_comments_replaced, marker_lines_replaced, replace_marker_comments, replace_marker_lines};
use crate::text::{
    chars_of, contains_str, eq_str, is_whitespace, is_ws, occurs_at, push_all, push_str, replace_all,
    slice, string_of, trim, trim_end, trim_start, trimmed, usize_to_chars, words, decimal, replaced,
};

verus! {

/// How a protected tag is put back.
#[derive(Clone, Copy)]
pub enum JinjaReplacement {
    Inline,
    StandaloneLine,
    BlockComment,
}

/// A protected template tag: the token that stands for it, its text, and
/// how it was embedded.
pub struct JinjaFragment {
    pub token: String,
    pub content: String,
    pub replacement: JinjaReplacement,
}

/// The kind of a template tag: `{{ }}`, `{% %}` or `{# #}`.
#[derive(Clone, Copy)]
pub enum JinjaTagKind {
    Expr,
    Block,
    Comment,
}

/// Whether the text holds a Jinja marker: `{{`, `{%` or `{#`.
pub open spec fn jinja_marked(s: Seq<char>) -> bool {
    (exists|j: int| occurs_at(s, "{{"@, j)) || (exists|j: int| occurs_at(s, "{%"@, j)) || (exists|j: int|
        occurs_at(s, "{#"@, j))
}

pub fn contains_jinja_markers(input: &[char]) -> (r: bool)
    ensures
        r == jinja_marked(input@),
{
    contains_str(input, "{{") || contains_str(input, "{%") || contains_str(input, "{#")
}

/// Where a tag that starts before `i` ends: just past the first
/// `close_a close_b` pair outside quoted text (quotes with backslash
/// escapes), scanning from `i` with the given quote state.
pub open spec fn tag_end_from(
    s: Seq<char>,
    i: int,
    in_single: bool,
    in_double: bool,
    escaped: bool,
    close_a: char,
    close_b: char,
) -> Option<int>
    decreases s.len() - i,
{
    if i < 0 || i + 1 >= s.len() {
        None
    } else if escaped {
        tag_end_from(s, i + 1, in_single, in_double, false, close_a, close_b)
    } else if in_single {
        if s[i] == '\\' {
            tag_end_from(s, i + 1, true, in_double, true, close_a, close_b)
        } else if s[i] == '\'' {
            tag_end_from(s, i + 1, false, in_double, false, close_a, close_b)
        } else {
            tag_end_from(s, i + 1, true, in_double, false, close_a, close_b)
        }
    } else if in_double {
        if s[i] == '\\' {
            tag_end_from(s, i + 1, false, true, true, close_a, close_b)
        } else if s[i] == '"' {
            tag_end_from(s, i + 1, false, false, false, close_a, close_b)
        } else {
            tag_end_from(s, i + 1, false, true, false, close_a, close_b)
        }
    } else if s[i] == '\'' {
        tag_end_from(s, i + 1, true, false, false, close_a, close_b)
    } else if s[i] == '"' {
        tag_end_from(s, i + 1, false, true, false, close_a, close_b)
    } else if s[i] == close_a && s[i + 1] == close_b {
        Some(i + 2)
    } else {
        tag_end_from(s, i + 1, false, false, false, close_a, close_b)
    }
}

/// The end of a tag whose opening pair ends at `i`.
pub open spec fn tag_end(s: Seq<char>, i: int, close_a: char, close_b: char) -> Option<int> {
    tag_end_from(s, i, false, false, false, close_a, close_b)
}

pub proof fn lemma_tag_end_from_bound(
    s: Seq<char>,
    i: int,
    in_single: bool,
    in_double: bool,
    escaped: bool,
    close_a: char,
    close_b: char,
)
    ensures
        tag_end_from(s, i, in_single, in_double, escaped, close_a, close_b) matches Some(e) ==> i + 2 <= e
            <= s.len(),
    decreases s.len() - i,
{
    if i < 0 || i + 1 >= s.len() {
    } else {
        lemma_tag_end_from_bound(s, i + 1, false, false, false, close_a, close_b);
        lemma_tag_end_from_bound(s, i + 1, true, in_double, true, close_a, close_b);
        lemma_tag_end_from_bound(s, i + 1, false, in_double, false, close_a, close_b);
        lemma_tag_end_from_bound(s, i + 1, true, in_double, false, close_a, close_b);
        lemma_tag_end_from_bound(s, i + 1, false, true, true, close_a, close_b);
        lemma_tag_end_from_bound(s, i + 1, false, true, false, close_a, close_b);
        lemma_tag_end_from_bound(s, i + 1, true, false, false, close_a, close_b);
        lemma_tag_end_from_bound(s, i + 1, in_single, in_double, false, close_a, close_b);
    }
}

/// The position just past the closing pair `close_a close_b` of a tag that
/// starts before `idx`; quoted text (with backslash escapes) is skipped.
fn find_tag_end(input: &[char], idx: usize, close_a: char, close_b: char) -> (r: Option<usize>)
    ensures
        r matches Some(e) ==> idx + 2 <= e <= input@.len(),
        match r {
            Some(e) => tag_end(input@, idx as int, close_a, close_b) == Some(e as int),
            None => tag_end(input@, idx as int, close_a, close_b) is None,
        },
{
    let mut i = idx;
    let mut in_single = false;
    let mut in_double = false;
    let mut escaped = false;
    while i < input.len() && i + 1 < input.len()
        invariant
            idx <= i,
            tag_end_from(input@, i as int, in_single, in_double, escaped, close_a, close_b) == tag_end(
                input@,
                idx as int,
                close_a,
                close_b,
            ),
        decreases input.len() - i,
    {
        let b = input[i];
        if escaped {
            escaped = false;
            i = i + 1;
        } else if in_single {
            if b == '\\' {
                escaped = true;
            } else if b == '\'' {
                in_single = false;
            }
            i = i + 1;
        } else if in_double {
            if b == '\\' {
                escaped = true;
            } else if b == '"' {
                in_double = false;
            }
            i = i + 1;
        } else if b == '\'' {
            in_single = true;
            i = i + 1;
        } else if b == '"' {
            in_double = true;
            i = i + 1;
        } else if b == close_a && input[i + 1] == close_b {
            return Some(i + 2);
        } else {
            i = i + 1;
        }
    }
    None
}

/// The first word of the text between `{%` and `%}`, after trimming and
/// dropping the trim markers (`-`) at either end.
pub open spec fn block_name(raw: Seq<char>) -> Option<Seq<char>> {
    if raw.len() < 4 || raw[0] != '{' || raw[1] != '%' || raw[raw.len() - 2] != '%' || raw[raw.len()
        - 1] != '}' {
        None
    } else {
        let inner = trimmed(raw.subrange(2, raw.len() - 2));
        let inner = if inner.len() > 0 && inner[0] == '-' {
            trim_start(inner.drop_first())
        } else {
            inner
        };
        let inner = trim_end(
            if inner.len() > 0 && inner.last() == '-' {
                inner.drop_last()
            } else {
                inner
            },
        );
        if words(inner).len() == 0 {
            None
        } else {
            Some(words(inner)[0])
        }
    }
}

/// Where the `{% endraw %}` tag at or after `i` ends.
pub open spec fn endraw_from(s: Seq<char>, i: int) -> Option<int>
    decreases s.len() - i,
{
    if i < 0 || i + 1 >= s.len() {
        None
    } else if s[i] == '{' && s[i + 1] == '%' {
        match tag_end(s, i + 2, '%', '}') {
            None => None,
            Some(e) => {
                proof {
                    lemma_tag_end_from_bound(s, i + 2, false, false, false, '%', '}');
                }
                if block_name(s.subrange(i, e)) == Some("endraw"@) {
                    Some(e)
                } else {
                    endraw_from(s, e)
                }
            },
        }
    } else {
        endraw_from(s, i + 1)
    }
}

pub proof fn lemma_endraw_bound(s: Seq<char>, i: int)
    ensures
        endraw_from(s, i) matches Some(e) ==> i + 4 <= e <= s.len(),
    decreases s.len() - i,
{
    if i < 0 || i + 1 >= s.len() {
    } else if s[i] == '{' && s[i + 1] == '%' {
        lemma_tag_end_from_bound(s, i + 2, false, false, false, '%', '}');
        if let Some(e) = tag_end(s, i + 2, '%', '}') {
            lemma_endraw_bound(s, e);
        }
    } else {
        lemma_endraw_bound(s, i + 1);
    }
}

/// The end of the `{% endraw %}` tag at or after `idx`.
fn find_endraw_block(input: &[char], idx: usize) -> (r: Option<usize>)
    ensures
        r matches Some(e) ==> idx + 4 <= e <= input@.len(),
        match r {
            Some(e) => endraw_from(input@, idx as int) == Some(e as int),
            None => endraw_from(input@, idx as int) is None,
        },
{
    let mut i = idx;
    while i < input.len() && i + 1 < input.len()
        invariant
            idx <= i,
            endraw_from(input@, i as int) == endraw_from(input@, idx as int),
        decreases input.len() - i,
    {
        if input[i] == '{' && input[i + 1] == '%' {
            let end = find_tag_end(input, i + 2, '%', '}')?;
            let tag = slice(input, i, end);
            if let Some(name) = block_tag_name(tag.as_slice()) {
                if eq_str(name.as_slice(), "endraw") {
                    proof { lemma_endraw_bound(input@, idx as int); }
                    return Some(end);
                }
            }
            i = end;
        } else {
            i = i + 1;
        }
    }
    None
}

/// The first word of a `{% ... %}` tag, after trim markers (`-`).
fn block_tag_name(raw: &[char]) -> (r: Option<Vec<char>>)
    ensures
        match r {
            Some(w) => block_name(raw@) == Some(w@),
            None => block_name(raw@) is None,
        },
{
    if raw.len() < 4 || raw[0] != '{' || raw[1] != '%' || raw[raw.len() - 2] != '%' || raw[raw.len() - 1] != '}' {
        return None;
    }
    let inner = trim(slice(raw, 2, raw.len() - 2).as_slice());
    let inner = if inner.len() > 0 && inner[0] == '-' {
        crate::text::trim_start_chars(slice(inner.as_slice(), 1, inner.len()).as_slice())
    } else {
        inner
    };
    let inner = if inner.len() > 0 && inner[inner.len() - 1] == '-' {
        slice(inner.as_slice(), 0, inner.len() - 1)
    } else {
        inner
    };
    let inner = crate::text::trim_end_chars(inner.as_slice());
    let words = crate::text::split_words(inner.as_slice());
    if words.len() == 0 {
        None
    } else {
        Some(slice(words[0].as_slice(), 0, words[0].len()))
    }
}

/// No line break in `s[a..b)`.
pub open spec fn no_newline(s: Seq<char>, a: int, b: int) -> bool {
    forall|m: int| a <= m < b ==> s[m] != '\n'
}

/// The text between the last line break before `start` and `start` is
/// whitespace only.
pub open spec fn blank_before(s: Seq<char>, start: int) -> bool {
    forall|k: int| #![trigger no_newline(s, k, start)] 0 <= k < start && no_newline(s, k, start) ==> is_ws(s[k])
}

/// The text between `end` and the next line break is whitespace only.
pub open spec fn blank_after(s: Seq<char>, end: int) -> bool {
    forall|k: int| #![trigger no_newline(s, end, k + 1)] end <= k < s.len() && no_newline(s, end, k + 1) ==> is_ws(s[k])
}

/// The tag `s[start..end)` stands alone on its line(s).
pub open spec fn standalone(s: Seq<char>, start: int, end: int) -> bool {
    blank_before(s, start) && blank_after(s, end)
}

/// Whether the text before `start` on its line and after `end` on its line
/// is only whitespace.
fn is_standalone_line(input: &[char], start: usize, end: usize) -> (r: bool)
    requires
        start <= end <= input@.len(),
    ensures
        r == standalone(input@, start as int, end as int),
{
    let ghost s = input@;
    let mut i = start;
    while i > 0 && input[i - 1] != '\n'
        invariant
            i <= start,
            start <= end <= s.len(),
            s == input@,
            forall|k: int| i <= k < start ==> s[k] != '\n' && is_ws(s[k]),
        decreases i,
    {
        if !is_whitespace(input[i - 1]) {
            proof {
                assert(no_newline(s, i - 1, start as int));
            }
            return false;
        }
        i = i - 1;
    }
    assert forall|k: int| 0 <= k < start && no_newline(s, k, start as int) implies is_ws(s[k]) by {
        if k < i {
            assert(s[i - 1] == '\n');
        }
    }
    let mut j = end;
    while j < input.len() && input[j] != '\n'
        invariant
            end <= j <= s.len(),
            s == input@,
            forall|k: int| end <= k < j ==> s[k] != '\n' && is_ws(s[k]),
        decreases input.len() - j,
    {
        if !is_whitespace(input[j]) {
            proof {
                assert(no_newline(s, end as int, j + 1));
            }
            return false;
        }
        j = j + 1;
    }
    assert forall|k: int| end <= k < s.len() && no_newline(s, end as int, k + 1) implies is_ws(s[k]) by {
        if k >= j {
            assert(s[j as int] == '\n');
        }
    }
    true
}

/// What a protected tag is recorded as: its token, its text, and how it
/// was embedded.
pub open spec fn frag_view(f: JinjaFragment) -> (Seq<char>, Seq<char>, JinjaReplacement) {
    (f.token@, f.content@, f.replacement)
}

pub open spec fn frag_views(v: Seq<JinjaFragment>) -> Seq<(Seq<char>, Seq<char>, JinjaReplacement)> {
    v.map_values(|f: JinjaFragment| frag_view(f))
}

pub open spec fn kind_prefix(kind: JinjaTagKind) -> Seq<char> {
    match kind {
        JinjaTagKind::Expr => "SQLCHISEL_JINJA_EXPR_"@,
        JinjaTagKind::Block => "SQLCHISEL_JINJA_BLOCK_"@,
        JinjaTagKind::Comment => "SQLCHISEL_JINJA_COMMENT_"@,
    }
}

/// The longest token that stands for a protected tag.
pub const TOKEN_LIMIT: usize = 64;

/// Every token of the record is no longer than `TOKEN_LIMIT`.
pub open spec fn tokens_fit(frags: Seq<(Seq<char>, Seq<char>, JinjaReplacement)>) -> bool {
    forall|i: int| 0 <= i < frags.len() ==> #[trigger] frags[i].0.len() <= TOKEN_LIMIT
}

/// The token for the `n`-th protected tag of a kind.
pub open spec fn frag_token(kind: JinjaTagKind, n: nat) -> Seq<char> {
    kind_prefix(kind) + decimal(n) + "__"@
}

/// How a tag is embedded: as a line comment when it stands alone on its
/// line, as a block comment when it is a template comment, else inline.
pub open spec fn frag_replacement(s: Seq<char>, start: int, end: int, kind: JinjaTagKind) -> JinjaReplacement {
    if standalone(s, start, end) {
        JinjaReplacement::StandaloneLine
    } else if kind is Comment {
        JinjaReplacement::BlockComment
    } else {
        JinjaReplacement::Inline
    }
}

/// The SQL text that stands for a token.
pub open spec fn frag_text(token: Seq<char>, rep: JinjaReplacement) -> Seq<char> {
    match rep {
        JinjaReplacement::StandaloneLine => "-- "@ + token,
        JinjaReplacement::BlockComment => "/* "@ + token + " */"@,
        JinjaReplacement::Inline => token,
    }
}

/// The output and the record after protecting the tag `s[start..end)`.
pub open spec fn pushed(
    s: Seq<char>,
    start: int,
    end: int,
    out: Seq<char>,
    frags: Seq<(Seq<char>, Seq<char>, JinjaReplacement)>,
    kind: JinjaTagKind,
) -> (Seq<char>, Seq<(Seq<char>, Seq<char>, JinjaReplacement)>) {
    let token = frag_token(kind, frags.len());
    let rep = frag_replacement(s, start, end, kind);
    (out + frag_text(token, rep), frags.push((token, s.subrange(start, end), rep)))
}

fn push_fragment(
    input: &[char],
    start: usize,
    end: usize,
    out: &mut Vec<char>,
    frags: &mut Vec<JinjaFragment>,
    kind: JinjaTagKind,
)
    requires
        start <= end <= input@.len(),
    ensures
        (final(out)@, frag_views(final(frags)@)) == pushed(
            input@,
            start as int,
            end as int,
            old(out)@,
            frag_views(old(frags)@),
            kind,
        ),
        tokens_fit(frag_views(old(frags)@)) ==> tokens_fit(frag_views(final(frags)@)),
{
    let content = slice(input, start, end);
    let mut token = match kind {
        JinjaTagKind::Expr => chars_of("SQLCHISEL_JINJA_EXPR_"),
        JinjaTagKind::Block => chars_of("SQLCHISEL_JINJA_BLOCK_"),
        JinjaTagKind::Comment => chars_of("SQLCHISEL_JINJA_COMMENT_"),
    };
    let digits = usize_to_chars(frags.len());
    push_all(&mut token, digits.as_slice());
    push_str(&mut token, "__");
    assert(token@ == frag_token(kind, frags@.len()));
    proof {
        reveal_strlit("SQLCHISEL_JINJA_EXPR_");
        reveal_strlit("SQLCHISEL_JINJA_BLOCK_");
        reveal_strlit("SQLCHISEL_JINJA_COMMENT_");
        reveal_strlit("__");
        assert(token@.len() <= TOKEN_LIMIT);
    }
    let replacement = if is_standalone_line(input, start, end) {
        push_str(out, "-- ");
        push_all(out, token.as_slice());
        JinjaReplacement::StandaloneLine
    } else if matches!(kind, JinjaTagKind::Comment) {
        push_str(out, "/* ");
        push_all(out, token.as_slice());
        push_str(out, " */");
        assert(out@ =~= old(out)@ + ("/* "@ + token@ + " */"@));
        JinjaReplacement::BlockComment
    } else {
        push_all(out, token.as_slice());
        JinjaReplacement::Inline
    };
    let ghost before = frags@;
    let frag = JinjaFragment {
        token: string_of(token.as_slice()),
        content: string_of(content.as_slice()),
        replacement,
    };
    frags.push(frag);
    assert(frag_views(frags@) =~= frag_views(before).push(frag_view(frag)));
    proof {
        if tokens_fit(frag_views(before)) {
            let v = frag_views(frags@);
            assert forall|i: int| 0 <= i < v.len() implies #[trigger] v[i].0.len() <= TOKEN_LIMIT by {
                if i < before.len() {
                    assert(v[i] == frag_views(before)[i]);
                }
            }
        }
    }
}

/// `o`, or `n` where it is absent.
pub open spec fn or_len(o: Option<int>, n: int) -> int {
    match o {
        Some(e) => e,
        None => n,
    }
}

/// The kind of the tag whose opening pair starts at `idx`.
pub open spec fn tag_kind(s: Seq<char>, idx: int) -> JinjaTagKind {
    if s[idx + 1] == '{' {
        JinjaTagKind::Expr
    } else if s[idx + 1] == '%' {
        JinjaTagKind::Block
    } else {
        JinjaTagKind::Comment
    }
}

/// Where the tag whose opening pair starts at `idx` ends: at its closing
/// pair, through `{% endraw %}` for a `{% raw %}` tag, or at the end of the
/// text where the closing is missing.
pub open spec fn tag_span_end(s: Seq<char>, idx: int) -> int {
    if s[idx + 1] == '{' {
        or_len(tag_end(s, idx + 2, '}', '}'), s.len() as int)
    } else if s[idx + 1] == '%' {
        let first = or_len(tag_end(s, idx + 2, '%', '}'), s.len() as int);
        if block_name(s.subrange(idx, first)) == Some("raw"@) {
            or_len(endraw_from(s, first), s.len() as int)
        } else {
            first
        }
    } else {
        or_len(tag_end(s, idx + 2, '#', '}'), s.len() as int)
    }
}

pub open spec fn opens_tag(s: Seq<char>, idx: int) -> bool {
    s[idx] == '{' && idx + 1 < s.len() && (s[idx + 1] == '{' || s[idx + 1] == '%' || s[idx + 1] == '#')
}

pub proof fn lemma_tag_span_bound(s: Seq<char>, idx: int)
    requires
        0 <= idx,
        idx + 1 < s.len(),
    ensures
        idx < tag_span_end(s, idx) <= s.len(),
{
    lemma_tag_end_from_bound(s, idx + 2, false, false, false, '}', '}');
    lemma_tag_end_from_bound(s, idx + 2, false, false, false, '%', '}');
    lemma_tag_end_from_bound(s, idx + 2, false, false, false, '#', '}');
    let first = or_len(tag_end(s, idx + 2, '%', '}'), s.len() as int);
    lemma_endraw_bound(s, first);
}

/// The output and the record of protecting the tags of `s` from `idx` on.
pub open spec fn preserve_scan(
    s: Seq<char>,
    idx: int,
    out: Seq<char>,
    frags: Seq<(Seq<char>, Seq<char>, JinjaReplacement)>,
) -> (Seq<char>, Seq<(Seq<char>, Seq<char>, JinjaReplacement)>)
    decreases s.len() - idx,
{
    if idx < 0 || idx >= s.len() {
        (out, frags)
    } else if opens_tag(s, idx) {
        let end = tag_span_end(s, idx);
        proof {
            lemma_tag_span_bound(s, idx);
        }
        let (o, f) = pushed(s, idx, end, out, frags, tag_kind(s, idx));
        preserve_scan(s, end, o, f)
    } else {
        preserve_scan(s, idx + 1, out.push(s[idx]), frags)
    }
}

/// What protecting the tags of `s` gives.
pub open spec fn preserved(s: Seq<char>) -> (Seq<char>, Seq<(Seq<char>, Seq<char>, JinjaReplacement)>) {
    preserve_scan(s, 0, Seq::empty(), Seq::empty())
}

/// Replaces each template tag by a token that the SQL parser accepts and
/// records the tag; a `{% raw %}` block is kept whole. Text without
/// markers comes back unchanged, with nothing recorded.
pub fn preserve_jinja_expressions(input: &[char]) -> (r: (Vec<char>, Vec<JinjaFragment>))
    ensures
        (r.0@, frag_views(r.1@)) == preserved(input@),
        !jinja_marked(input@) ==> r.0@ == input@ && r.1@.len() == 0,
        tokens_fit(frag_views(r.1@)),
{
    let mut out: Vec<char> = Vec::new();
    let mut frags: Vec<JinjaFragment> = Vec::new();
    let mut idx: usize = 0;
    assert(frag_views(frags@) =~= Seq::empty());
    while idx < input.len()
        invariant
            idx <= input@.len(),
            !jinja_marked(input@) ==> out@ == input@.take(idx as int) && frags@.len() == 0,
            preserve_scan(input@, idx as int, out@, frag_views(frags@)) == preserved(input@),
            tokens_fit(frag_views(frags@)),
        decreases input.len() - idx,
    {
        let c = input[idx];
        if c == '{' && (next_is(input, idx, '{') || next_is(input, idx, '%') || next_is(input, idx, '#')) {
            proof {
                reveal_strlit("{{");
                reveal_strlit("{%");
                reveal_strlit("{#");
                let p = input@.subrange(idx as int, idx + 2);
                if input@[idx + 1] == '{' {
                    assert(p =~= "{{"@);
                    assert(occurs_at(input@, "{{"@, idx as int));
                } else if input@[idx + 1] == '%' {
                    assert(p =~= "{%"@);
                    assert(occurs_at(input@, "{%"@, idx as int));
                } else {
                    assert(p =~= "{#"@);
                    assert(occurs_at(input@, "{#"@, idx as int));
                }
                lemma_tag_span_bound(input@, idx as int);
            }
            let start = idx;
            let end = if next_is(input, idx, '{') {
                let end = match find_tag_end(input, idx + 2, '}', '}') {
                    Some(e) => e,
                    None => input.len(),
                };
                push_fragment(input, start, end, &mut out, &mut frags, JinjaTagKind::Expr);
                end
            } else if next_is(input, idx, '%') {
                let first_end = match find_tag_end(input, idx + 2, '%', '}') {
                    Some(e) => e,
                    None => input.len(),
                };
                let tag = slice(input, start, first_end);
                let is_raw = match block_tag_name(tag.as_slice()) {
                    Some(name) => eq_str(name.as_slice(), "raw"),
                    None => false,
                };
                let end = if is_raw {
                    match find_endraw_block(input, first_end) {
                        Some(e) => e,
                        None => input.len(),
                    }
                } else {
                    first_end
                };
                push_fragment(input, start, end, &mut out, &mut frags, JinjaTagKind::Block);
                end
            } else {
                let end = match find_tag_end(input, idx + 2, '#', '}') {
                    Some(e) => e,
                    None => input.len(),
                };
                push_fragment(input, start, end, &mut out, &mut frags, JinjaTagKind::Comment);
                end
            };
            assert(end == tag_span_end(input@, start as int));
            idx = end;
        } else {
            out.push(c);
            idx = idx + 1;
            proof {
                assert(input@.take(idx as int) =~= input@.take(idx - 1).push(c));
            }
        }
    }
    assert(input@.take(idx as int) =~= input@);
    (out, frags)
}

/// One protected tag put back: the comment or token that stands for it is
/// replaced by its text, wherever it occurs.
pub open spec fn restore_step(out: Seq<char>, f: (Seq<char>, Seq<char>, JinjaReplacement)) -> Seq<char> {
    match f.2 {
        JinjaReplacement::Inline => replaced(out, f.0, f.1),
        JinjaReplacement::StandaloneLine => replaced(marker_lines_replaced(out, f.0, f.1), f.0, f.1),
        JinjaReplacement::BlockComment => replaced(marker_comments_replaced(out, f.0, f.1), f.0, f.1),
    }
}

/// All protected tags put back, in the order they were recorded.
pub open spec fn restored(out: Seq<char>, frags: Seq<(Seq<char>, Seq<char>, JinjaReplacement)>) -> Seq<char>
    decreases frags.len(),
{
    if frags.len() == 0 {
        out
    } else {
        restore_step(restored(out, frags.drop_last()), frags.last())
    }
}

/// Puts the protected tags back in place of their tokens, in order.
/// Without fragments the output is returned unchanged.
pub fn restore_jinja_expressions(output: Vec<char>, frags: &Vec<JinjaFragment>) -> (r: Vec<char>)
    requires
        tokens_fit(frag_views(frags@)),
    ensures
        r@ == restored(output@, frag_views(frags@)),
        frags@.len() == 0 ==> r@ == output@,
{
    let mut out = output;
    let mut i: usize = 0;
    while i < frags.len()
        invariant
            i <= frags@.len(),
            tokens_fit(frag_views(frags@)),
            out@ == restored(output@, frag_views(frags@).take(i as int)),
        decreases frags.len() - i,
    {
        let frag = &frags[i];
        assert(frag_views(frags@)[i as int] == frag_view(frags@[i as int]));
        assert(frag_views(frags@)[i as int].0.len() <= TOKEN_LIMIT);
        assert(frag.token@.len() <= TOKEN_LIMIT);
        let token = chars_of(frag.token.as_str());
        let content = chars_of(frag.content.as_str());
        let ghost before = out@;
        match frag.replacement {
            JinjaReplacement::Inline => {
                out = replace_all(out.as_slice(), token.as_slice(), content.as_slice());
            },
            JinjaReplacement::StandaloneLine => {
                let s = string_of(out.as_slice());
                let replaced = replace_marker_lines(s.as_str(), frag.token.as_str(), frag.content.as_str());
                let rc = chars_of(replaced.as_str());
                out = replace_all(rc.as_slice(), token.as_slice(), content.as_slice());
            },
            JinjaReplacement::BlockComment => {
                let s = string_of(out.as_slice());
                let replaced = replace_marker_comments(s.as_str(), frag.token.as_str(), frag.content.as_str());
                let rc = chars_of(replaced.as_str());
                out = replace_all(rc.as_slice(), token.as_slice(), content.as_slice());
            },
        }
        proof {
            let fv = frag_views(frags@);
            assert(fv.take(i + 1).drop_last() =~= fv.take(i as int));
            assert(fv[i as int] == frag_view(frags@[i as int]));
            assert(out@ == restore_step(before, fv[i as int]));
        }
        i = i + 1;
    }
    assert(frag_views(frags@).take(i as int) =~= frag_views(frags@));
    out
}

} // verus!
