use vstd::prelude::*;

verus! {

/// The layout document: text pieces plus the places where a line may or
/// must break.
#[derive(Debug, PartialEq, Eq)]
pub enum Doc {
    Text(String),
    Space,
    /// A hard line break.
    Line,
    /// A space when the enclosing group fits, a line break otherwise.
    SoftLine,
    Indent(Box<Doc>),
    Group(Vec<Doc>),
    Concat(Vec<Doc>),
}

/// The mathematical value of a document: its texts as character sequences.
pub enum DocV {
    Text(Seq<char>),
    Space,
    Line,
    SoftLine,
    Indent(Box<DocV>),
    Group(Seq<DocV>),
    Concat(Seq<DocV>),
}

pub open spec fn doc_view(d: Doc) -> DocV
    decreases d,
{
    match d {
        Doc::Text(s) => DocV::Text(s@),
        Doc::Space => DocV::Space,
        Doc::Line => DocV::Line,
        Doc::SoftLine => DocV::SoftLine,
        Doc::Indent(inner) => DocV::Indent(Box::new(doc_view(*inner))),
        Doc::Group(ch) => DocV::Group(docs_view(ch@)),
        Doc::Concat(ch) => DocV::Concat(docs_view(ch@)),
    }
}

pub open spec fn docs_view(ds: Seq<Doc>) -> Seq<DocV>
    decreases ds,
{
    if ds.len() == 0 {
        Seq::empty()
    } else {
        docs_view(ds.drop_last()).push(doc_view(ds.last()))
    }
}

impl View for Doc {
    type V = DocV;

    open spec fn view(&self) -> DocV {
        doc_view(*self)
    }
}

/// The view of a sequence of documents is taken element by element.
pub broadcast proof fn lemma_docs_view(ds: Seq<Doc>)
    ensures
        #[trigger] docs_view(ds).len() == ds.len(),
        forall|i: int| 0 <= i < ds.len() ==> #[trigger] docs_view(ds)[i] == doc_view(ds[i]),
    decreases ds.len(),
{
    if ds.len() > 0 {
        lemma_docs_view(ds.drop_last());
    }
}

pub broadcast proof fn lemma_docs_view_push(ds: Seq<Doc>, d: Doc)
    ensures
        #[trigger] docs_view(ds.push(d)) == docs_view(ds).push(doc_view(d)),
{
    assert(ds.push(d).drop_last() =~= ds);
}

pub proof fn lemma_docs_view_concat(a: Seq<Doc>, b: Seq<Doc>)
    ensures
        docs_view(a + b) == docs_view(a) + docs_view(b),
    decreases b.len(),
{
    if b.len() == 0 {
        assert(a + b =~= a);
        assert(docs_view(a) + docs_view(b) =~= docs_view(a));
    } else {
        lemma_docs_view_concat(a, b.drop_last());
        assert((a + b).drop_last() =~= a + b.drop_last());
        assert((a + b).last() == b.last());
        assert(docs_view(a) + docs_view(b) =~= (docs_view(a) + docs_view(b.drop_last())).push(
            doc_view(b.last()),
        ));
    }
}

/// Whether a document contains a line break of either kind.
pub open spec fn has_line(d: DocV) -> bool
    decreases d,
{
    match d {
        DocV::Line | DocV::SoftLine => true,
        DocV::Indent(inner) => has_line(*inner),
        DocV::Group(ch) | DocV::Concat(ch) => has_line_seq(ch),
        _ => false,
    }
}

pub open spec fn has_line_seq(ds: Seq<DocV>) -> bool
    decreases ds,
{
    if ds.len() == 0 {
        false
    } else {
        has_line_seq(ds.drop_last()) || has_line(ds.last())
    }
}

/// A text document.
pub fn text(s: String) -> (d: Doc)
    ensures
        d@ == DocV::Text(s@),
{
    Doc::Text(s)
}

/// `doc_has_line`: whether a document contains a line break of either kind.
pub fn doc_has_line(d: &Doc) -> (r: bool)
    ensures
        r == has_line(d@),
    decreases d,
{
    match d {
        Doc::Line | Doc::SoftLine => true,
        Doc::Indent(inner) => doc_has_line(inner),
        Doc::Group(ch) => docs_have_line(ch),
        Doc::Concat(ch) => docs_have_line(ch),
        _ => false,
    }
}

fn docs_have_line(ch: &Vec<Doc>) -> (r: bool)
    ensures
        r == has_line_seq(docs_view(ch@)),
    decreases ch,
{
    let mut i: usize = 0;
    let mut found = false;
    while i < ch.len()
        invariant
            i <= ch@.len(),
            found == has_line_seq(docs_view(ch@.take(i as int))),
        decreases ch.len() - i,
    {
        let ghost pre = docs_view(ch@.take(i as int));
        proof {
            assert(ch@.take(i + 1).drop_last() =~= ch@.take(i as int));
            assert(docs_view(ch@.take(i + 1)) == pre.push(doc_view(ch@[i as int])));
            assert(pre.push(doc_view(ch@[i as int])).drop_last() =~= pre);
        }
        let h = doc_has_line(&ch[i]);
        found = found || h;
        i = i + 1;
    }
    assert(ch@.take(i as int) =~= ch@);
    found
}

} // verus!
