//! The paper record: one entry of an upstream feed.
//!
//! Timestamps are held as whole seconds since the Unix epoch; equality of
//! records is structural over every field, which is what the collection's
//! deduplication keys on.

use vstd::prelude::*;
use vstd::string::StrSliceExecFns;

verus! {

/// Mathematical value of an [`Arxiv`] record.
#[verifier::ext_equal]
pub ghost struct ArxivView {
    pub id: Seq<char>,
    pub updated: int,
    pub published: int,
    pub title: Seq<char>,
    pub summary: Seq<char>,
    pub authors: Seq<Seq<char>>,
    pub pdf_url: Seq<char>,
    pub comment: Option<Seq<char>>,
}

/// A structure that stores the paper information.
///
/// `updated` and `published` are seconds since the Unix epoch.
#[derive(Clone, Debug, PartialEq, Eq, Hash)]
pub struct Arxiv {
    pub id: String,
    pub updated: i64,
    pub published: i64,
    pub title: String,
    pub summary: String,
    pub authors: Vec<String>,
    pub pdf_url: String,
    pub comment: Option<String>,
}

impl View for Arxiv {
    type V = ArxivView;

    open spec fn view(&self) -> ArxivView {
        ArxivView {
            id: self.id@,
            updated: self.updated as int,
            published: self.published as int,
            title: self.title@,
            summary: self.summary@,
            authors: self.authors.deep_view(),
            pdf_url: self.pdf_url@,
            comment: self.comment.deep_view(),
        }
    }
}

impl DeepView for Arxiv {
    type V = ArxivView;

    open spec fn deep_view(&self) -> ArxivView {
        self.view()
    }
}

/// The value of an empty record: every text field blank, both timestamps
/// at the epoch, no authors and no comment.
pub open spec fn empty_arxiv() -> ArxivView {
    ArxivView {
        id: Seq::<char>::empty(),
        updated: 0int,
        published: 0int,
        title: Seq::<char>::empty(),
        summary: Seq::<char>::empty(),
        authors: Seq::<Seq<char>>::empty(),
        pdf_url: Seq::<char>::empty(),
        comment: None,
    }
}

impl Arxiv {
    /// An empty record: the parser's accumulator before any field is seen.
    pub fn new() -> (r: Arxiv)
        ensures
            r@ == empty_arxiv(),
    {
        let r = Arxiv {
            id: String::new(),
            updated: 0,
            published: 0,
            title: String::new(),
            summary: String::new(),
            authors: Vec::new(),
            pdf_url: String::new(),
            comment: None,
        };
        proof {
            assert(r.authors.deep_view() =~= Seq::<Seq<char>>::empty());
        }
        r
    }

    /// A field-by-field copy whose value is known to equal the original's.
    pub fn duplicate(&self) -> (r: Arxiv)
        ensures
            r@ == self@,
    {
        let r = Arxiv {
            id: self.id.clone(),
            updated: self.updated,
            published: self.published,
            title: self.title.clone(),
            summary: self.summary.clone(),
            authors: clone_strings(&self.authors),
            pdf_url: self.pdf_url.clone(),
            comment: clone_opt_string(&self.comment),
        };
        proof {
            assert(r@ =~= self@);
        }
        r
    }
}

/// Copies a vector of strings, preserving its value.
pub fn clone_strings(v: &Vec<String>) -> (r: Vec<String>)
    ensures
        r.deep_view() == v.deep_view(),
{
    let mut r: Vec<String> = Vec::new();
    let mut i: usize = 0;
    while i < v.len()
        invariant
            i <= v.len(),
            r.deep_view() =~= v.deep_view().take(i as int),
        decreases v.len() - i,
    {
        let ghost prev = r.deep_view();
        r.push(v[i].clone());
        proof {
            assert(r.deep_view() =~= prev.push(v@[i as int]@));
            assert(r.deep_view() =~= v.deep_view().take(i + 1int));
        }
        i = i + 1;
    }
    proof {
        assert(r.deep_view() =~= v.deep_view());
    }
    r
}

/// Copies an optional string, preserving its value.
pub fn clone_opt_string(v: &Option<String>) -> (r: Option<String>)
    ensures
        r.deep_view() == v.deep_view(),
{
    match v {
        Some(s) => Some(s.clone()),
        None => None,
    }
}

/// Whether two string vectors hold the same character sequences.
pub fn string_vecs_eq(a: &Vec<String>, b: &Vec<String>) -> (r: bool)
    ensures
        r == (a.deep_view() == b.deep_view()),
{
    if a.len() != b.len() {
        proof {
            assert(a.deep_view().len() == a@.len());
            assert(b.deep_view().len() == b@.len());
        }
        return false;
    }
    let mut i: usize = 0;
    while i < a.len()
        invariant
            i <= a.len(),
            a.len() == b.len(),
            a.deep_view().len() == a@.len(),
            b.deep_view().len() == b@.len(),
            forall|j: int| 0 <= j < i ==> a.deep_view()[j] == b.deep_view()[j],
        decreases a.len() - i,
    {
        if !string_eq(&a[i], &b[i]) {
            proof {
                assert(a.deep_view()[i as int] == a@[i as int]@);
                assert(b.deep_view()[i as int] == b@[i as int]@);
            }
            return false;
        }
        i = i + 1;
    }
    proof {
        assert(a.deep_view() =~= b.deep_view());
    }
    true
}

/// Whether two strings hold the same character sequence.
pub fn string_eq(a: &String, b: &String) -> (r: bool)
    ensures
        r == (a@ == b@),
{
    a.eq(b)
}

/// Whether two string slices hold the same character sequence.
pub fn str_eq(a: &str, b: &str) -> (r: bool)
    ensures
        r == (a@ == b@),
{
    let n = a.unicode_len();
    if n != b.unicode_len() {
        return false;
    }
    let mut i: usize = 0;
    while i < n
        invariant
            i <= n,
            n == a@.len(),
            n == b@.len(),
            forall|j: int| 0 <= j < i ==> a@[j] == b@[j],
        decreases n - i,
    {
        if a.get_char(i) != b.get_char(i) {
            return false;
        }
        i = i + 1;
    }
    proof {
        assert(a@ =~= b@);
    }
    true
}

/// Whether two optional strings hold the same value.
pub fn opt_string_eq(a: &Option<String>, b: &Option<String>) -> (r: bool)
    ensures
        r == (a.deep_view() == b.deep_view()),
{
    match (a, b) {
        (Some(x), Some(y)) => string_eq(x, y),
        (None, None) => true,
        _ => false,
    }
}

/// Structural equality of two paper records, over every field.
pub fn arxiv_eq(a: &Arxiv, b: &Arxiv) -> (r: bool)
    ensures
        r == (a@ == b@),
{
    let r = string_eq(&a.id, &b.id) && a.updated == b.updated && a.published == b.published
        && string_eq(&a.title, &b.title) && string_eq(&a.summary, &b.summary)
        && string_vecs_eq(&a.authors, &b.authors) && string_eq(&a.pdf_url, &b.pdf_url)
        && opt_string_eq(&a.comment, &b.comment);
    proof {
        if r {
            assert(a@ =~= b@);
        }
    }
    r
}

} // verus!
