//! The structured document value type: the untyped shape of parsed metadata.
//!
//! Schemas and annotations are treated as opaque structured values. They are
//! held as [`Document`] values: null, booleans, integers, other numeric
//! scalars kept verbatim, text, lists, and objects whose pairs keep their
//! document order.

use vstd::prelude::*;

verus! {

/// A structured document value.
///
/// Objects keep their pairs in document order; duplicate keys are kept as
/// written, and lookups take the first occurrence.
#[derive(Debug)]
pub enum Document {
    Null,
    Bool(bool),
    Int(i64),
    /// A numeric scalar that does not fit an `i64` (a fraction, an exponent
    /// form, or an unsigned value above `i64::MAX`), kept as written and
    /// serialized back verbatim.
    Number(String),
    Text(String),
    List(Vec<Document>),
    Object(Vec<(String, Document)>),
}

/// The mathematical shape of a [`Document`].
pub enum DocView {
    Null,
    Bool(bool),
    Int(int),
    Number(Seq<char>),
    Text(Seq<char>),
    List(Seq<DocView>),
    Object(Seq<(Seq<char>, DocView)>),
}

/// The shape of a document: lists and objects hold the shapes of their
/// elements, in order.
pub open spec fn doc_view(d: Document) -> DocView
    decreases d,
    via doc_view_decreases
{
    match d {
        Document::Null => DocView::Null,
        Document::Bool(b) => DocView::Bool(b),
        Document::Int(n) => DocView::Int(n as int),
        Document::Number(s) => DocView::Number(s@),
        Document::Text(s) => DocView::Text(s@),
        Document::List(v) => DocView::List(docs_view(v@)),
        Document::Object(v) => DocView::Object(pairs_view(v@)),
    }
}

/// The shapes of a sequence of documents, in order.
pub open spec fn docs_view(s: Seq<Document>) -> Seq<DocView>
    decreases s, 0int,
    via docs_view_decreases
{
    if s.len() == 0 {
        Seq::empty()
    } else {
        docs_view(s.drop_last()).push(doc_view(s.last()))
    }
}

/// The shapes of a sequence of key-document pairs, in order.
pub open spec fn pairs_view(s: Seq<(String, Document)>) -> Seq<(Seq<char>, DocView)>
    decreases s, 0int,
    via pairs_view_decreases
{
    if s.len() == 0 {
        Seq::empty()
    } else {
        pairs_view(s.drop_last()).push((s.last().0@, doc_view(s.last().1)))
    }
}

#[via_fn]
proof fn doc_view_decreases(d: Document) {
    broadcast use vstd::std_specs::vec::group_vec_axioms;

    match d {
        Document::List(v) => {
            assert(decreases_to!(d => v));
            assert(decreases_to!(v => v@));
        },
        Document::Object(v) => {
            assert(decreases_to!(d => v));
            assert(decreases_to!(v => v@));
        },
        _ => {},
    }
}

#[via_fn]
proof fn docs_view_decreases(s: Seq<Document>) {
    if s.len() != 0 {
        assert(decreases_to!(s => s.subrange(0, s.len() - 1)));
        assert(decreases_to!(s => s[s.len() - 1]));
    }
}

#[via_fn]
proof fn pairs_view_decreases(s: Seq<(String, Document)>) {
    if s.len() != 0 {
        assert(decreases_to!(s => s.subrange(0, s.len() - 1)));
        assert(decreases_to!(s => s[s.len() - 1]));
        assert(decreases_to!(s[s.len() - 1] => s[s.len() - 1].1));
    }
}

pub broadcast proof fn lemma_docs_view_len(s: Seq<Document>)
    ensures
        #[trigger] docs_view(s).len() == s.len(),
    decreases s.len(),
{
    if s.len() != 0 {
        lemma_docs_view_len(s.drop_last());
    }
}

pub broadcast proof fn lemma_docs_view_index(s: Seq<Document>, i: int)
    requires
        0 <= i < s.len(),
    ensures
        #[trigger] docs_view(s)[i] == doc_view(s[i]),
    decreases s.len(),
{
    lemma_docs_view_len(s.drop_last());
    if i < s.len() - 1 {
        lemma_docs_view_index(s.drop_last(), i);
    }
}

pub broadcast proof fn lemma_pairs_view_len(s: Seq<(String, Document)>)
    ensures
        #[trigger] pairs_view(s).len() == s.len(),
    decreases s.len(),
{
    if s.len() != 0 {
        lemma_pairs_view_len(s.drop_last());
    }
}

pub broadcast proof fn lemma_pairs_view_index(s: Seq<(String, Document)>, i: int)
    requires
        0 <= i < s.len(),
    ensures
        #[trigger] pairs_view(s)[i] == (s[i].0@, doc_view(s[i].1)),
    decreases s.len(),
{
    lemma_pairs_view_len(s.drop_last());
    if i < s.len() - 1 {
        lemma_pairs_view_index(s.drop_last(), i);
    }
}

pub proof fn lemma_docs_view_cons(s: Seq<Document>, x: Document)
    ensures
        docs_view(s.insert(0, x)) == seq![doc_view(x)] + docs_view(s),
{
    broadcast use group_document_views;

    assert forall|k: int| 0 <= k < s.len() + 1 implies docs_view(s.insert(0, x))[k] == (
    seq![doc_view(x)] + docs_view(s))[k] by {
        if k > 0 {
            assert(s.insert(0, x)[k] == s[k - 1]);
        }
    }
    assert(docs_view(s.insert(0, x)) =~= seq![doc_view(x)] + docs_view(s));
}

pub proof fn lemma_pairs_view_cons(s: Seq<(String, Document)>, x: (String, Document))
    ensures
        pairs_view(s.insert(0, x)) == seq![(x.0@, doc_view(x.1))] + pairs_view(s),
{
    broadcast use group_document_views;

    assert forall|k: int| 0 <= k < s.len() + 1 implies pairs_view(s.insert(0, x))[k] == (
    seq![(x.0@, doc_view(x.1))] + pairs_view(s))[k] by {
        if k > 0 {
            assert(s.insert(0, x)[k] == s[k - 1]);
        }
    }
    assert(pairs_view(s.insert(0, x)) =~= seq![(x.0@, doc_view(x.1))] + pairs_view(s));
}

/// The shape lemmas for document sequences, bundled for `broadcast use`.
pub broadcast group group_document_views {
    lemma_docs_view_len,
    lemma_docs_view_index,
    lemma_pairs_view_len,
    lemma_pairs_view_index,
}

impl View for Document {
    type V = DocView;

    open spec fn view(&self) -> DocView {
        doc_view(*self)
    }
}

impl PartialEq for Document {
    fn eq(&self, other: &Self) -> bool {
        doc_equal(self, other)
    }
}

impl vstd::std_specs::cmp::PartialEqSpecImpl for Document {
    open spec fn obeys_eq_spec() -> bool {
        true
    }

    open spec fn eq_spec(&self, other: &Self) -> bool {
        self@ == other@
    }
}

/// Structural equality of two documents.
#[verifier::loop_isolation(false)]
pub fn doc_equal(a: &Document, b: &Document) -> (r: bool)
    ensures
        r == (a@ == b@),
    decreases *a,
{
    broadcast use group_document_views;

    match (a, b) {
        (Document::Null, Document::Null) => true,
        (Document::Bool(x), Document::Bool(y)) => x == y,
        (Document::Int(x), Document::Int(y)) => x == y,
        (Document::Number(x), Document::Number(y)) => *x == *y,
        (Document::Text(x), Document::Text(y)) => *x == *y,
        (Document::List(x), Document::List(y)) => {
            if x.len() != y.len() {
                proof {
                    assert(a@ == DocView::List(docs_view(x@)));
                    assert(b@ == DocView::List(docs_view(y@)));
                    assert(docs_view(x@).len() != docs_view(y@).len());
                }
                return false;
            }
            let n = x.len();
            let mut i: usize = 0;
            while i < n
                invariant
                    i <= n,
                    forall|k: int| 0 <= k < i ==> doc_view(x@[k]) == doc_view(y@[k]),
                decreases n - i,
            {
                proof {
                    assert(decreases_to!(*a => *x));
                    assert(decreases_to!(*x => x@));
                    assert(decreases_to!(x@ => x@[i as int]));
                }
                if !doc_equal(&x[i], &y[i]) {
                    proof {
                        assert(docs_view(x@)[i as int] != docs_view(y@)[i as int]);
                    }
                    return false;
                }
                i += 1;
            }
            proof {
                assert(docs_view(x@) =~= docs_view(y@));
            }
            true
        },
        (Document::Object(x), Document::Object(y)) => {
            if x.len() != y.len() {
                proof {
                    assert(a@ == DocView::Object(pairs_view(x@)));
                    assert(b@ == DocView::Object(pairs_view(y@)));
                    assert(pairs_view(x@).len() != pairs_view(y@).len());
                }
                return false;
            }
            let n = x.len();
            let mut i: usize = 0;
            while i < n
                invariant
                    i <= n,
                    forall|k: int|
                        0 <= k < i ==> x@[k].0@ == y@[k].0@ && doc_view(x@[k].1) == doc_view(
                            y@[k].1,
                        ),
                decreases n - i,
            {
                if x[i].0 != y[i].0 {
                    proof {
                        assert(pairs_view(x@)[i as int].0 != pairs_view(y@)[i as int].0);
                    }
                    return false;
                }
                proof {
                    assert(decreases_to!(*a => *x));
                    assert(decreases_to!(*x => x@));
                    assert(decreases_to!(x@ => x@[i as int]));
                    assert(decreases_to!(x@[i as int] => x@[i as int].1));
                }
                if !doc_equal(&x[i].1, &y[i].1) {
                    proof {
                        assert(pairs_view(x@)[i as int].1 != pairs_view(y@)[i as int].1);
                    }
                    return false;
                }
                i += 1;
            }
            proof {
                assert(pairs_view(x@) =~= pairs_view(y@));
            }
            true
        },
        _ => false,
    }
}


// ---------------------------------------------------------------------------
// Copying, comparing and looking up
// ---------------------------------------------------------------------------

impl Clone for Document {
    /// A deep copy with the same shape.
    fn clone(&self) -> (res: Self)
        ensures
            res@ == self@,
        decreases *self, 0int,
    {
        broadcast use group_document_views;

        match self {
            Document::Null => Document::Null,
            Document::Bool(b) => Document::Bool(*b),
            Document::Int(n) => Document::Int(*n),
            Document::Number(s) => Document::Number(s.clone()),
            Document::Text(s) => Document::Text(s.clone()),
            Document::List(v) => {
                proof {
                    assert(decreases_to!(*self => *v));
                    assert(decreases_to!(*v => v@));
                }
                Document::List(clone_docs(v))
            },
            Document::Object(v) => {
                proof {
                    assert(decreases_to!(*self => *v));
                    assert(decreases_to!(*v => v@));
                }
                Document::Object(clone_pairs(v))
            },
        }
    }
}

/// A deep copy of a document vector, with the same shapes.
#[verifier::loop_isolation(false)]
fn clone_docs(v: &Vec<Document>) -> (res: Vec<Document>)
    ensures
        docs_view(res@) == docs_view(v@),
    decreases v@, 1int,
{
    broadcast use group_document_views;

    let mut res: Vec<Document> = Vec::new();
    let mut i: usize = 0;
    while i < v.len()
        invariant
            i <= v@.len(),
            res@.len() == i,
            forall|k: int| 0 <= k < i ==> doc_view(res@[k]) == doc_view(v@[k]),
        decreases v@.len() - i,
    {
        proof {
            assert(decreases_to!(v@ => v@[i as int]));
        }
        let c = v[i].clone();
        res.push(c);
        i += 1;
    }
    proof {
        assert(docs_view(res@) =~= docs_view(v@));
    }
    res
}

/// A deep copy of a key-document pair vector, with the same shapes.
#[verifier::loop_isolation(false)]
pub fn clone_pairs(v: &Vec<(String, Document)>) -> (res: Vec<(String, Document)>)
    ensures
        pairs_view(res@) == pairs_view(v@),
    decreases v@, 1int,
{
    broadcast use group_document_views;

    let mut res: Vec<(String, Document)> = Vec::new();
    let mut i: usize = 0;
    while i < v.len()
        invariant
            i <= v@.len(),
            res@.len() == i,
            forall|k: int| 0 <= k < i ==> res@[k].0@ == v@[k].0@ && doc_view(res@[k].1)
                == doc_view(v@[k].1),
        decreases v@.len() - i,
    {
        proof {
            assert(decreases_to!(v@ => v@[i as int]));
            assert(decreases_to!(v@[i as int] => v@[i as int].1));
        }
        let key = v[i].0.clone();
        let val = v[i].1.clone();
        res.push((key, val));
        i += 1;
    }
    proof {
        assert(pairs_view(res@) =~= pairs_view(v@));
    }
    res
}

/// Structural equality of two key-document pair vectors.
#[verifier::loop_isolation(false)]
pub fn pairs_equal(a: &Vec<(String, Document)>, b: &Vec<(String, Document)>) -> (r: bool)
    ensures
        r == (pairs_view(a@) == pairs_view(b@)),
{
    broadcast use group_document_views;

    if a.len() != b.len() {
        proof {
            assert(pairs_view(a@).len() != pairs_view(b@).len());
        }
        return false;
    }
    let n = a.len();
    let mut i: usize = 0;
    while i < n
        invariant
            i <= n,
            forall|k: int| 0 <= k < i ==> a@[k].0@ == b@[k].0@ && doc_view(a@[k].1) == doc_view(
                b@[k].1,
            ),
        decreases n - i,
    {
        if a[i].0 != b[i].0 {
            proof {
                assert(pairs_view(a@)[i as int].0 != pairs_view(b@)[i as int].0);
            }
            return false;
        }
        if !doc_equal(&a[i].1, &b[i].1) {
            proof {
                assert(pairs_view(a@)[i as int].1 != pairs_view(b@)[i as int].1);
            }
            return false;
        }
        i += 1;
    }
    proof {
        assert(pairs_view(a@) =~= pairs_view(b@));
    }
    true
}

/// The value under the first occurrence of a key among an object's pairs.
pub open spec fn spec_lookup(pairs: Seq<(Seq<char>, DocView)>, key: Seq<char>) -> Option<DocView>
    decreases pairs.len(),
{
    if pairs.len() == 0 {
        None
    } else if pairs[0].0 == key {
        Some(pairs[0].1)
    } else {
        spec_lookup(pairs.drop_first(), key)
    }
}

/// Find the value under the first occurrence of a key.
#[verifier::loop_isolation(false)]
pub fn lookup<'a>(pairs: &'a Vec<(String, Document)>, key: &str) -> (r: Option<&'a Document>)
    ensures
        match r {
            Some(d) => spec_lookup(pairs_view(pairs@), key@) == Some(d@),
            None => spec_lookup(pairs_view(pairs@), key@) is None,
        },
{
    broadcast use group_document_views;

    let ghost pv = pairs_view(pairs@);
    let n = pairs.len();
    let mut i: usize = 0;
    proof {
        assert(pv.len() == pairs@.len());
        assert(pv.skip(0) =~= pv);
    }
    while i < n
        invariant
            i <= n,
            n == pairs@.len(),
            pv == pairs_view(pairs@),
            pv.len() == n,
            spec_lookup(pv, key@) == spec_lookup(pv.skip(i as int), key@),
        decreases n - i,
    {
        proof {
            assert(pv.skip(i as int)[0] == pv[i as int]);
        }
        if crate::text::str_eq(pairs[i].0.as_str(), key) {
            proof {
                assert(pairs_view(pairs@)[i as int] == (
                    pairs@[i as int].0@,
                    doc_view(pairs@[i as int].1),
                ));
                assert(spec_lookup(pv.skip(i as int), key@) == Some(pv[i as int].1));
            }
            return Some(&pairs[i].1);
        }
        proof {
            assert(pv.skip(i as int).drop_first() =~= pv.skip(i + 1));
        }
        i += 1;
    }
    proof {
        assert(pv.skip(n as int) =~= Seq::<(Seq<char>, DocView)>::empty());
    }
    None
}

} // verus!
