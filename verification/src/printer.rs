use vstd::prelude::*;

use crate::doc::{docs_view, Doc, DocV};
use crate::text::push_char;

verus! {

/// Page settings of the printer.
#[derive(Debug, Clone, Copy, PartialEq, Eq, Structural)]
pub struct PrintConfig {
    pub line_length: usize,
    pub indent_width: usize,
}

impl PrintConfig {
    pub open spec fn spec_default() -> PrintConfig {
        PrintConfig { line_length: 100, indent_width: 2 }
    }
}

impl Default for PrintConfig {
    fn default() -> (r: Self)
        ensures
            r == PrintConfig::spec_default(),
    {
        PrintConfig { line_length: 100, indent_width: 2 }
    }
}

/// Addition that stops at the largest machine word.
pub open spec fn sat_add(a: int, b: int) -> int {
    if a + b > usize::MAX {
        usize::MAX as int
    } else {
        a + b
    }
}

/// The number of bytes that UTF-8 takes for a character.
pub open spec fn char_utf8_len(c: char) -> nat {
    let u = c as u32;
    if u < 0x80 {
        1
    } else if u < 0x800 {
        2
    } else if u < 0x10000 {
        3
    } else {
        4
    }
}

/// The number of bytes that UTF-8 takes for a text.
pub open spec fn utf8_len(s: Seq<char>) -> nat
    decreases s.len(),
{
    if s.len() == 0 {
        0
    } else {
        utf8_len(s.drop_last()) + char_utf8_len(s.last())
    }
}

proof fn lemma_space_width()
    ensures
        utf8_len(seq![' ']) == 1,
{
    assert(seq![' '].drop_last() =~= Seq::<char>::empty());
    assert((' ' as u32) == 32u32);
    assert(utf8_len(Seq::<char>::empty()) == 0);
    assert(char_utf8_len(' ') == 1);
}

/// The UTF-8 length of a text, in bytes.
fn utf8_len_of(s: &str) -> (r: u128)
    ensures
        r == utf8_len(s@),
{
    let c = crate::text::chars_of(s);
    let mut total: u128 = 0;
    let mut i: usize = 0;
    assert(c@.take(0) =~= Seq::<char>::empty());
    while i < c.len()
        invariant
            i <= c@.len(),
            c@ == s@,
            total == utf8_len(c@.take(i as int)),
            total <= 4 * i,
        decreases c.len() - i,
    {
        let ch = c[i];
        let u = ch as u32;
        let w: u128 = if u < 0x80 {
            1
        } else if u < 0x800 {
            2
        } else if u < 0x10000 {
            3
        } else {
            4
        };
        assert(c@.take(i + 1).drop_last() =~= c@.take(i as int));
        assert(c@.take(i + 1).last() == ch);
        total = total + w;
        i = i + 1;
    }
    assert(c@.take(i as int) =~= c@);
    total
}

/// The width of a document laid out on a single line: every text counts its
/// bytes, every space and every line break counts one.
pub open spec fn flat_width(d: Doc) -> nat
    decreases d,
{
    match d {
        Doc::Text(s) => utf8_len(s@),
        Doc::Space => 1,
        Doc::Line => 1,
        Doc::SoftLine => 1,
        Doc::Indent(inner) => flat_width(*inner),
        Doc::Group(ch) => flat_width_seq(ch@),
        Doc::Concat(ch) => flat_width_seq(ch@),
    }
}

/// The single-line width of a sequence of documents.
pub open spec fn flat_width_seq(ds: Seq<Doc>) -> nat
    decreases ds,
{
    if ds.len() == 0 {
        0
    } else {
        flat_width_seq(ds.drop_last()) + flat_width(ds.last())
    }
}

/// Whether a group of the given single-line width fits in what is left of
/// the line at column `col`.
pub open spec fn group_fits(cfg: PrintConfig, col: int, width: nat) -> bool {
    let rem: int = if cfg.line_length >= col {
        cfg.line_length - col
    } else {
        0
    };
    rem <= isize::MAX && width <= rem
}

/// The printer's state: what has been written, the current column, and
/// whether the next text starts a fresh line (and so is indented first).
pub struct PrintState {
    pub out: Seq<char>,
    pub col: int,
    pub line_start: bool,
}

pub open spec fn spaces(n: int) -> Seq<char> {
    Seq::new(n as nat, |i: int| ' ')
}

pub open spec fn initial_state() -> PrintState {
    PrintState { out: Seq::empty(), col: 0, line_start: false }
}

/// Indents the current line first when it is fresh.
pub open spec fn begin_text(st: PrintState, indent: int) -> PrintState {
    if st.line_start {
        PrintState { out: st.out + spaces(indent), col: sat_add(st.col, indent), line_start: false }
    } else {
        st
    }
}

pub open spec fn emit_text(st: PrintState, indent: int, s: Seq<char>) -> PrintState {
    let s1 = begin_text(st, indent);
    PrintState { out: s1.out + s, col: sat_add(s1.col, utf8_len(s) as int), line_start: false }
}

pub open spec fn emit_newline(st: PrintState) -> PrintState {
    PrintState { out: st.out.push('\n'), col: 0, line_start: true }
}

/// Rendering of a document at an indentation, in flat (`true`) or broken
/// (`false`) mode. A group chooses flat mode exactly when its single-line
/// width fits in the rest of the line.
pub open spec fn render(d: Doc, indent: int, flat: bool, cfg: PrintConfig, st: PrintState) -> PrintState
    decreases d,
{
    match d {
        Doc::Text(s) => emit_text(st, indent, s@),
        Doc::Space => emit_text(st, indent, seq![' ']),
        Doc::Line => emit_newline(st),
        Doc::SoftLine => if flat {
            emit_text(st, indent, seq![' '])
        } else {
            emit_newline(st)
        },
        Doc::Indent(inner) => render(*inner, sat_add(indent, cfg.indent_width as int), flat, cfg, st),
        Doc::Group(ch) => render_seq(
            ch@,
            indent,
            group_fits(cfg, st.col, flat_width_seq(ch@)),
            cfg,
            st,
        ),
        Doc::Concat(ch) => render_seq(ch@, indent, flat, cfg, st),
    }
}

/// Rendering of a sequence of documents one after the other.
pub open spec fn render_seq(ds: Seq<Doc>, indent: int, flat: bool, cfg: PrintConfig, st: PrintState) -> PrintState
    decreases ds,
{
    if ds.len() == 0 {
        st
    } else {
        render(ds.last(), indent, flat, cfg, render_seq(ds.drop_last(), indent, flat, cfg, st))
    }
}

/// The single-line width of a document value.
pub open spec fn flat_width_v(d: DocV) -> nat
    decreases d,
{
    match d {
        DocV::Text(s) => utf8_len(s),
        DocV::Space => 1,
        DocV::Line => 1,
        DocV::SoftLine => 1,
        DocV::Indent(inner) => flat_width_v(*inner),
        DocV::Group(ch) => flat_width_seq_v(ch),
        DocV::Concat(ch) => flat_width_seq_v(ch),
    }
}

pub open spec fn flat_width_seq_v(ds: Seq<DocV>) -> nat
    decreases ds,
{
    if ds.len() == 0 {
        0
    } else {
        flat_width_seq_v(ds.drop_last()) + flat_width_v(ds.last())
    }
}

/// Rendering of a document value, as `render` renders a document.
pub open spec fn render_v(d: DocV, indent: int, flat: bool, cfg: PrintConfig, st: PrintState) -> PrintState
    decreases d,
{
    match d {
        DocV::Text(s) => emit_text(st, indent, s),
        DocV::Space => emit_text(st, indent, seq![' ']),
        DocV::Line => emit_newline(st),
        DocV::SoftLine => if flat {
            emit_text(st, indent, seq![' '])
        } else {
            emit_newline(st)
        },
        DocV::Indent(inner) => render_v(*inner, sat_add(indent, cfg.indent_width as int), flat, cfg, st),
        DocV::Group(ch) => render_seq_v(ch, indent, group_fits(cfg, st.col, flat_width_seq_v(ch)), cfg, st),
        DocV::Concat(ch) => render_seq_v(ch, indent, flat, cfg, st),
    }
}

pub open spec fn render_seq_v(ds: Seq<DocV>, indent: int, flat: bool, cfg: PrintConfig, st: PrintState) -> PrintState
    decreases ds,
{
    if ds.len() == 0 {
        st
    } else {
        render_v(ds.last(), indent, flat, cfg, render_seq_v(ds.drop_last(), indent, flat, cfg, st))
    }
}

/// The text that printing a document value gives.
pub open spec fn printed(d: DocV, cfg: PrintConfig) -> Seq<char> {
    render_v(d, 0, false, cfg, initial_state()).out
}

/// Rendering depends on a document only through its value.
pub proof fn lemma_render_view(d: Doc, indent: int, flat: bool, cfg: PrintConfig, st: PrintState)
    ensures
        flat_width(d) == flat_width_v(d@),
        render(d, indent, flat, cfg, st) == render_v(d@, indent, flat, cfg, st),
    decreases d, 1nat,
{
    match d {
        Doc::Indent(inner) => {
            lemma_render_view(*inner, sat_add(indent, cfg.indent_width as int), flat, cfg, st);
        },
        Doc::Group(ch) => {
            lemma_render_seq_view(ch@, indent, group_fits(cfg, st.col, flat_width_seq(ch@)), cfg, st);
        },
        Doc::Concat(ch) => {
            lemma_render_seq_view(ch@, indent, flat, cfg, st);
        },
        _ => {},
    }
}

pub proof fn lemma_render_seq_view(ds: Seq<Doc>, indent: int, flat: bool, cfg: PrintConfig, st: PrintState)
    ensures
        flat_width_seq(ds) == flat_width_seq_v(docs_view(ds)),
        render_seq(ds, indent, flat, cfg, st) == render_seq_v(docs_view(ds), indent, flat, cfg, st),
    decreases ds, 0nat,
{
    if ds.len() > 0 {
        lemma_render_seq_view(ds.drop_last(), indent, flat, cfg, st);
        let st1 = render_seq(ds.drop_last(), indent, flat, cfg, st);
        lemma_render_view(ds.last(), indent, flat, cfg, st1);
        assert(docs_view(ds).drop_last() =~= docs_view(ds.drop_last()));
    }
}

/// What `format_doc` produces for a document.
pub open spec fn spec_format_doc(d: Doc, cfg: PrintConfig) -> Seq<char> {
    render(d, 0, false, cfg, initial_state()).out
}

/// Two hard line breaks in a row, in any mode and from any printer state,
/// write exactly two newlines and leave the printer at column zero at the
/// start of a line: this is the one blank line between two statements.
pub proof fn law_two_line_breaks(cfg: PrintConfig, indent: int, flat: bool, st: PrintState)
    ensures
        render_seq(seq![Doc::Line, Doc::Line], indent, flat, cfg, st) == (PrintState {
            out: st.out + seq!['\n', '\n'],
            col: 0,
            line_start: true,
        }),
{
    let two = seq![Doc::Line, Doc::Line];
    let one = seq![Doc::Line];
    assert(two.drop_last() =~= one);
    assert(two.last() == Doc::Line);
    assert(one.drop_last() =~= Seq::<Doc>::empty());
    assert(one.last() == Doc::Line);
    let s0 = render_seq(Seq::<Doc>::empty(), indent, flat, cfg, st);
    assert(s0 == st);
    let s1 = render_seq(one, indent, flat, cfg, st);
    assert(s1 == render(Doc::Line, indent, flat, cfg, s0));
    assert(s1 == emit_newline(st));
    let s2 = render_seq(two, indent, flat, cfg, st);
    assert(s2 == render(Doc::Line, indent, flat, cfg, s1));
    assert(s2 == emit_newline(emit_newline(st)));
    assert(st.out.push('\n').push('\n') =~= st.out + seq!['\n', '\n']);
}

/// Whether a document holds no hard line break.
pub open spec fn no_hard_line(d: Doc) -> bool
    decreases d,
{
    match d {
        Doc::Line => false,
        Doc::Indent(inner) => no_hard_line(*inner),
        Doc::Group(ch) => no_hard_line_seq(ch@),
        Doc::Concat(ch) => no_hard_line_seq(ch@),
        _ => true,
    }
}

pub open spec fn no_hard_line_seq(ds: Seq<Doc>) -> bool
    decreases ds,
{
    if ds.len() == 0 {
        true
    } else {
        no_hard_line_seq(ds.drop_last()) && no_hard_line(ds.last())
    }
}

/// A document's text on a single line: its texts, with one space for each
/// space and each soft line break.
pub open spec fn flat_text(d: Doc) -> Seq<char>
    decreases d,
{
    match d {
        Doc::Text(s) => s@,
        Doc::Space => seq![' '],
        Doc::Line => seq!['\n'],
        Doc::SoftLine => seq![' '],
        Doc::Indent(inner) => flat_text(*inner),
        Doc::Group(ch) => flat_text_seq(ch@),
        Doc::Concat(ch) => flat_text_seq(ch@),
    }
}

pub open spec fn flat_text_seq(ds: Seq<Doc>) -> Seq<char>
    decreases ds,
{
    if ds.len() == 0 {
        Seq::empty()
    } else {
        flat_text_seq(ds.drop_last()) + flat_text(ds.last())
    }
}

/// In flat mode, in the middle of a line with room for the whole document,
/// a document without hard breaks writes its single-line text and moves the
/// column by its width.
proof fn lemma_render_flat(d: Doc, indent: int, cfg: PrintConfig, st: PrintState)
    requires
        no_hard_line(d),
        !st.line_start,
        0 <= st.col,
        st.col + flat_width(d) <= cfg.line_length,
        cfg.line_length <= isize::MAX,
    ensures
        render(d, indent, true, cfg, st) == (PrintState {
            out: st.out + flat_text(d),
            col: st.col + flat_width(d),
            line_start: false,
        }),
    decreases d,
{
    match d {
        Doc::Indent(inner) => {
            lemma_render_flat(*inner, sat_add(indent, cfg.indent_width as int), cfg, st);
        },
        Doc::Group(ch) => {
            lemma_render_flat_seq(ch@, indent, cfg, st);
        },
        Doc::Concat(ch) => {
            lemma_render_flat_seq(ch@, indent, cfg, st);
        },
        _ => {
            lemma_space_width();
        },
    }
}

proof fn lemma_render_flat_seq(ds: Seq<Doc>, indent: int, cfg: PrintConfig, st: PrintState)
    requires
        no_hard_line_seq(ds),
        !st.line_start,
        0 <= st.col,
        st.col + flat_width_seq(ds) <= cfg.line_length,
        cfg.line_length <= isize::MAX,
    ensures
        render_seq(ds, indent, true, cfg, st) == (PrintState {
            out: st.out + flat_text_seq(ds),
            col: st.col + flat_width_seq(ds),
            line_start: false,
        }),
    decreases ds,
{
    if ds.len() == 0 {
        assert(st.out + flat_text_seq(ds) =~= st.out);
    } else {
        lemma_render_flat_seq(ds.drop_last(), indent, cfg, st);
        let mid = render_seq(ds.drop_last(), indent, true, cfg, st);
        lemma_render_flat(ds.last(), indent, cfg, mid);
        assert(st.out + flat_text_seq(ds.drop_last()) + flat_text(ds.last()) =~= st.out + flat_text_seq(ds));
    }
}

/// A group without hard line breaks whose single-line width fits the line
/// length is printed on one line, exactly as its single-line text.
pub proof fn law_fitting_group_prints_flat(d: Doc, cfg: PrintConfig)
    requires
        d is Group,
        no_hard_line(d),
        flat_width(d) <= cfg.line_length,
        cfg.line_length <= isize::MAX,
    ensures
        spec_format_doc(d, cfg) == flat_text(d),
{
    match d {
        Doc::Group(ch) => {
            assert(group_fits(cfg, 0, flat_width_seq(ch@)));
            lemma_render_flat_seq(ch@, 0, cfg, initial_state());
            assert(Seq::<char>::empty() + flat_text_seq(ch@) =~= flat_text_seq(ch@));
        },
        _ => {},
    }
}

struct Printer {
    out: String,
    col: usize,
    line_start: bool,
}

impl Printer {
    spec fn model(&self) -> PrintState {
        PrintState { out: self.out@, col: self.col as int, line_start: self.line_start }
    }

    fn begin_text(&mut self, indent: usize)
        ensures
            final(self).model() == begin_text(old(self).model(), indent as int),
    {
        if self.line_start {
            let mut i: usize = 0;
            while i < indent
                invariant
                    i <= indent,
                    self.out@ == old(self).out@ + spaces(i as int),
                    self.col == old(self).col,
                    self.line_start == old(self).line_start,
                decreases indent - i,
            {
                push_char(&mut self.out, ' ');
                i = i + 1;
                assert(self.out@ =~= old(self).out@ + spaces(i as int));
            }
            self.col = self.col.saturating_add(indent);
            self.line_start = false;
        }
    }

    fn text(&mut self, indent: usize, s: &String)
        ensures
            final(self).model() == emit_text(old(self).model(), indent as int, s@),
    {
        self.begin_text(indent);
        let n = utf8_len_of(s.as_str());
        self.out.append(s.as_str());
        if n > (usize::MAX - self.col) as u128 {
            self.col = usize::MAX;
        } else {
            self.col = self.col + n as usize;
        }
    }

    fn space(&mut self, indent: usize)
        ensures
            final(self).model() == emit_text(old(self).model(), indent as int, seq![' ']),
    {
        self.begin_text(indent);
        proof {
            lemma_space_width();
        }
        let ghost before = self.out@;
        push_char(&mut self.out, ' ');
        assert(self.out@ =~= before + seq![' ']);
        self.col = self.col.saturating_add(1);
    }

    fn newline(&mut self)
        ensures
            final(self).model() == emit_newline(old(self).model()),
    {
        push_char(&mut self.out, '\n');
        self.col = 0;
        self.line_start = true;
    }
}

proof fn lemma_flat_width_prefix(ds: Seq<Doc>, i: int)
    requires
        0 <= i <= ds.len(),
    ensures
        flat_width_seq(ds.take(i)) <= flat_width_seq(ds),
    decreases ds.len(),
{
    if i < ds.len() {
        assert(ds.drop_last().take(i) =~= ds.take(i));
        lemma_flat_width_prefix(ds.drop_last(), i);
    } else {
        assert(ds.take(i) =~= ds);
    }
}

/// Measures the single-line width of `d` against a budget: the budget left
/// over when the width fits in it, `None` otherwise.
fn width_within(d: &Doc, budget: usize) -> (r: Option<usize>)
    ensures
        flat_width(*d) <= budget ==> r == Some((budget - flat_width(*d)) as usize),
        flat_width(*d) > budget ==> r is None,
    decreases d,
{
    match d {
        Doc::Text(s) => {
            let n = utf8_len_of(s.as_str());
            if n <= budget as u128 {
                Some(budget - n as usize)
            } else {
                None
            }
        },
        Doc::Space | Doc::Line | Doc::SoftLine => {
            if budget >= 1 {
                Some(budget - 1)
            } else {
                None
            }
        },
        Doc::Indent(inner) => width_within(inner, budget),
        Doc::Group(ch) | Doc::Concat(ch) => width_within_seq(ch, budget),
    }
}

fn width_within_seq(ch: &Vec<Doc>, budget: usize) -> (r: Option<usize>)
    ensures
        flat_width_seq(ch@) <= budget ==> r == Some((budget - flat_width_seq(ch@)) as usize),
        flat_width_seq(ch@) > budget ==> r is None,
    decreases ch,
{
    let mut left = budget;
    let mut i: usize = 0;
    while i < ch.len()
        invariant
            i <= ch.len(),
            flat_width_seq(ch@.take(i as int)) <= budget,
            left == budget - flat_width_seq(ch@.take(i as int)),
        decreases ch.len() - i,
    {
        proof {
            assert(ch@.take(i + 1).drop_last() =~= ch@.take(i as int));
            assert(ch@.take(i + 1).last() == ch@[i as int]);
        }
        match width_within(&ch[i], left) {
            Some(l) => {
                left = l;
            },
            None => {
                proof {
                    lemma_flat_width_prefix(ch@, i + 1);
                }
                return None;
            },
        }
        i = i + 1;
    }
    assert(ch@.take(i as int) =~= ch@);
    Some(left)
}

/// Whether a group with these children fits at column `col`: their
/// single-line width, in bytes, is at most what is left of the line.
pub fn fits(children: &Vec<Doc>, col: usize, cfg: &PrintConfig) -> (r: bool)
    ensures
        r == group_fits(*cfg, col as int, flat_width_seq(children@)),
{
    let rem = cfg.line_length.saturating_sub(col);
    if rem > isize::MAX as usize {
        false
    } else {
        width_within_seq(children, rem).is_some()
    }
}

fn render_doc(d: &Doc, indent: usize, flat: bool, cfg: &PrintConfig, p: &mut Printer)
    ensures
        final(p).model() == render(*d, indent as int, flat, *cfg, old(p).model()),
    decreases d,
{
    match d {
        Doc::Text(s) => p.text(indent, s),
        Doc::Space => p.space(indent),
        Doc::Line => p.newline(),
        Doc::SoftLine => {
            if flat {
                p.space(indent);
            } else {
                p.newline();
            }
        },
        Doc::Indent(inner) => {
            render_doc(inner, indent.saturating_add(cfg.indent_width), flat, cfg, p);
        },
        Doc::Group(ch) => {
            let f = fits(ch, p.col, cfg);
            render_children(ch, indent, f, cfg, p);
        },
        Doc::Concat(ch) => {
            render_children(ch, indent, flat, cfg, p);
        },
    }
}

fn render_children(ch: &Vec<Doc>, indent: usize, flat: bool, cfg: &PrintConfig, p: &mut Printer)
    ensures
        final(p).model() == render_seq(ch@, indent as int, flat, *cfg, old(p).model()),
    decreases ch,
{
    let mut i: usize = 0;
    while i < ch.len()
        invariant
            i <= ch.len(),
            p.model() == render_seq(ch@.take(i as int), indent as int, flat, *cfg, old(p).model()),
        decreases ch.len() - i,
    {
        proof {
            assert(ch@.take(i + 1).drop_last() =~= ch@.take(i as int));
            assert(ch@.take(i + 1).last() == ch@[i as int]);
        }
        render_doc(&ch[i], indent, flat, cfg, p);
        i = i + 1;
    }
    assert(ch@.take(i as int) =~= ch@);
}

/// Renders a document: groups are laid out on one line when they fit in the
/// configured line length and broken at their soft lines otherwise; hard
/// lines always break, and each new line starts with its indentation.
pub fn format_doc(doc: &Doc, config: &PrintConfig) -> (r: String)
    ensures
        r@ == spec_format_doc(*doc, *config),
        r@ == printed(doc@, *config),
{
    proof {
        lemma_render_view(*doc, 0, false, *config, initial_state());
    }
    let mut p = Printer { out: String::new(), col: 0, line_start: false };
    render_doc(doc, 0, false, config, &mut p);
    p.out
}

// ---------------------------------------------------------------------------
// What printing adds
// ---------------------------------------------------------------------------

/// The characters that printing may add: spaces and line breaks.
pub open spec fn shown() -> spec_fn(char) -> bool {
    |c: char| c != ' ' && c != '\n'
}

/// A text without its spaces and line breaks.
pub open spec fn visible(s: Seq<char>) -> Seq<char> {
    s.filter(shown())
}

/// The texts of a document value, in order.
pub open spec fn texts_v(d: DocV) -> Seq<char>
    decreases d,
{
    match d {
        DocV::Text(s) => s,
        DocV::Indent(inner) => texts_v(*inner),
        DocV::Group(ch) => texts_seq_v(ch),
        DocV::Concat(ch) => texts_seq_v(ch),
        _ => Seq::empty(),
    }
}

pub open spec fn texts_seq_v(ds: Seq<DocV>) -> Seq<char>
    decreases ds,
{
    if ds.len() == 0 {
        Seq::empty()
    } else {
        texts_seq_v(ds.drop_last()) + texts_v(ds.last())
    }
}

/// No text of the document holds a space or a line break.
pub open spec fn no_blank_text(d: DocV) -> bool
    decreases d,
{
    match d {
        DocV::Text(s) => forall|i: int| 0 <= i < s.len() ==> #[trigger] s[i] != ' ' && s[i] != '\n',
        DocV::Indent(inner) => no_blank_text(*inner),
        DocV::Group(ch) => no_blank_text_seq(ch),
        DocV::Concat(ch) => no_blank_text_seq(ch),
        _ => true,
    }
}

pub open spec fn no_blank_text_seq(ds: Seq<DocV>) -> bool
    decreases ds,
{
    if ds.len() == 0 {
        true
    } else {
        no_blank_text_seq(ds.drop_last()) && no_blank_text(ds.last())
    }
}

proof fn lemma_visible_add(a: Seq<char>, b: Seq<char>)
    ensures
        visible(a + b) == visible(a) + visible(b),
{
    Seq::filter_distributes_over_add(a, b, shown());
}

proof fn lemma_visible_empty()
    ensures
        visible(Seq::<char>::empty()) == Seq::<char>::empty(),
{
    Seq::<char>::empty().lemma_filter_len(shown());
    assert(visible(Seq::<char>::empty()) =~= Seq::<char>::empty());
}

proof fn lemma_visible_kept(s: Seq<char>)
    requires
        forall|i: int| 0 <= i < s.len() ==> #[trigger] s[i] != ' ' && s[i] != '\n',
    ensures
        visible(s) == s,
    decreases s.len(),
{
    if s.len() == 0 {
        lemma_visible_empty();
        assert(s =~= Seq::<char>::empty());
    } else {
        let t = s.drop_last();
        assert forall|i: int| 0 <= i < t.len() implies #[trigger] t[i] != ' ' && t[i] != '\n' by {
            assert(t[i] == s[i]);
        }
        lemma_visible_kept(t);
        assert(t.push(s.last()) =~= s);
        t.lemma_filter_push(s.last(), shown());
        assert(shown()(s.last()));
    }
}

proof fn lemma_visible_all_blank(s: Seq<char>)
    requires
        forall|i: int| 0 <= i < s.len() ==> #[trigger] s[i] == ' ' || s[i] == '\n',
    ensures
        visible(s) == Seq::<char>::empty(),
    decreases s.len(),
{
    if s.len() == 0 {
        lemma_visible_empty();
        assert(s =~= Seq::<char>::empty());
    } else {
        let t = s.drop_last();
        assert forall|i: int| 0 <= i < t.len() implies #[trigger] t[i] == ' ' || t[i] == '\n' by {
            assert(t[i] == s[i]);
        }
        lemma_visible_all_blank(t);
        assert(t.push(s.last()) =~= s);
        t.lemma_filter_push(s.last(), shown());
        assert(!shown()(s.last()));
    }
}

proof fn lemma_visible_blank(c: char)
    requires
        c == ' ' || c == '\n',
    ensures
        visible(seq![c]) == Seq::<char>::empty(),
{
    lemma_visible_all_blank(seq![c]);
}

proof fn lemma_visible_spaces(n: int)
    ensures
        visible(spaces(n)) == Seq::<char>::empty(),
{
    lemma_visible_all_blank(spaces(n));
}

proof fn lemma_emit_visible(st: PrintState, indent: int, s: Seq<char>)
    ensures
        visible(emit_text(st, indent, s).out) == visible(st.out) + visible(s),
{
    let s1 = begin_text(st, indent);
    lemma_visible_add(s1.out, s);
    if st.line_start {
        lemma_visible_add(st.out, spaces(indent));
        lemma_visible_spaces(indent);
        assert(visible(st.out) + Seq::<char>::empty() =~= visible(st.out));
    }
}

proof fn lemma_newline_visible(st: PrintState)
    ensures
        visible(emit_newline(st).out) == visible(st.out),
{
    assert(st.out.push('\n') =~= st.out + seq!['\n']);
    lemma_visible_add(st.out, seq!['\n']);
    lemma_visible_blank('\n');
    assert(visible(st.out) + Seq::<char>::empty() =~= visible(st.out));
}

proof fn lemma_render_visible(d: DocV, indent: int, flat: bool, cfg: PrintConfig, st: PrintState)
    requires
        no_blank_text(d),
    ensures
        visible(render_v(d, indent, flat, cfg, st).out) == visible(st.out) + texts_v(d),
    decreases d, 1nat,
{
    match d {
        DocV::Text(s) => {
            lemma_emit_visible(st, indent, s);
            lemma_visible_kept(s);
        },
        DocV::Space => {
            lemma_emit_visible(st, indent, seq![' ']);
            lemma_visible_blank(' ');
            assert(visible(st.out) + Seq::<char>::empty() =~= visible(st.out));
        },
        DocV::Line => {
            lemma_newline_visible(st);
            assert(visible(st.out) + Seq::<char>::empty() =~= visible(st.out));
        },
        DocV::SoftLine => {
            if flat {
                lemma_emit_visible(st, indent, seq![' ']);
                lemma_visible_blank(' ');
            } else {
                lemma_newline_visible(st);
            }
            assert(visible(st.out) + Seq::<char>::empty() =~= visible(st.out));
        },
        DocV::Indent(inner) => {
            lemma_render_visible(*inner, sat_add(indent, cfg.indent_width as int), flat, cfg, st);
        },
        DocV::Group(ch) => {
            lemma_render_seq_visible(ch, indent, group_fits(cfg, st.col, flat_width_seq_v(ch)), cfg, st);
        },
        DocV::Concat(ch) => {
            lemma_render_seq_visible(ch, indent, flat, cfg, st);
        },
    }
}

proof fn lemma_render_seq_visible(ds: Seq<DocV>, indent: int, flat: bool, cfg: PrintConfig, st: PrintState)
    requires
        no_blank_text_seq(ds),
    ensures
        visible(render_seq_v(ds, indent, flat, cfg, st).out) == visible(st.out) + texts_seq_v(ds),
    decreases ds, 0nat,
{
    if ds.len() == 0 {
        assert(visible(st.out) + Seq::<char>::empty() =~= visible(st.out));
    } else {
        lemma_render_seq_visible(ds.drop_last(), indent, flat, cfg, st);
        let mid = render_seq_v(ds.drop_last(), indent, flat, cfg, st);
        lemma_render_visible(ds.last(), indent, flat, cfg, mid);
        assert(visible(st.out) + texts_seq_v(ds.drop_last()) + texts_v(ds.last()) =~= visible(st.out) + texts_seq_v(ds));
    }
}

/// The printer only adds spaces and line breaks: where no text of a
/// document holds either, the printed text without them is the document's
/// texts in order, none dropped, reordered or changed.
pub proof fn law_printer_only_adds_blanks(d: DocV, cfg: PrintConfig)
    requires
        no_blank_text(d),
    ensures
        visible(printed(d, cfg)) == texts_v(d),
{
    lemma_render_visible(d, 0, false, cfg, initial_state());
    lemma_visible_empty();
    assert(Seq::<char>::empty() + texts_v(d) =~= texts_v(d));
}

} // verus!
