//! The query builder: an immutable request descriptor for one upstream
//! source, and the fully formed query string derived from it.
//!
//! No network access happens here; the descriptor is handed to an outside
//! HTTP client unchanged.

use vstd::prelude::*;
use vstd::string::StrSliceExecFns;
use vstd::string::StringExecFns;

verus! {

/// Mathematical value of an [`ArxivQuery`] or [`ArxivQueryBuilder`].
#[verifier::ext_equal]
pub ghost struct QueryView {
    pub base_url: Seq<char>,
    pub search_query: Seq<char>,
    pub id_list: Seq<char>,
    pub start: Option<i32>,
    pub max_results: Option<i32>,
    pub sort_by: Seq<char>,
    pub sort_order: Seq<char>,
}

/// A structure that stores the query information.
#[derive(Clone, Debug, PartialEq, Eq)]
pub struct ArxivQuery {
    pub base_url: String,
    pub search_query: String,
    pub id_list: String,
    pub start: Option<i32>,
    pub max_results: Option<i32>,
    pub sort_by: String,
    pub sort_order: String,
}

impl View for ArxivQuery {
    type V = QueryView;

    open spec fn view(&self) -> QueryView {
        QueryView {
            base_url: self.base_url@,
            search_query: self.search_query@,
            id_list: self.id_list@,
            start: self.start,
            max_results: self.max_results,
            sort_by: self.sort_by@,
            sort_order: self.sort_order@,
        }
    }
}

/// A builder of [`ArxivQuery`]: each setter returns the updated builder,
/// and [`ArxivQueryBuilder::build`] yields the immutable descriptor.
#[derive(Clone, Debug, PartialEq, Eq)]
pub struct ArxivQueryBuilder {
    pub base_url: String,
    pub search_query: String,
    pub id_list: String,
    pub start: Option<i32>,
    pub max_results: Option<i32>,
    pub sort_by: String,
    pub sort_order: String,
}

impl View for ArxivQueryBuilder {
    type V = QueryView;

    open spec fn view(&self) -> QueryView {
        QueryView {
            base_url: self.base_url@,
            search_query: self.search_query@,
            id_list: self.id_list@,
            start: self.start,
            max_results: self.max_results,
            sort_by: self.sort_by@,
            sort_order: self.sort_order@,
        }
    }
}

impl ArxivQueryBuilder {
    /// A fresh builder aimed at the arXiv query endpoint, with every
    /// other field unset.
    pub fn new() -> (r: ArxivQueryBuilder)
        ensures
            r@.base_url == "http://export.arxiv.org/api/query"@,
            r@.search_query.len() == 0,
            r@.id_list.len() == 0,
            r@.start is None,
            r@.max_results is None,
            r@.sort_by.len() == 0,
            r@.sort_order.len() == 0,
    {
        ArxivQueryBuilder {
            base_url: String::from_str("http://export.arxiv.org/api/query"),
            search_query: String::new(),
            id_list: String::new(),
            start: None,
            max_results: None,
            sort_by: String::new(),
            sort_order: String::new(),
        }
    }

    /// Sets the search expression.
    pub fn search_query(self, search_query: &str) -> (r: ArxivQueryBuilder)
        ensures
            r@ == (QueryView { search_query: search_query@, ..self@ }),
    {
        ArxivQueryBuilder { search_query: String::from_str(search_query), ..self }
    }

    /// Sets the identifier list.
    pub fn id_list(self, id_list: &str) -> (r: ArxivQueryBuilder)
        ensures
            r@ == (QueryView { id_list: id_list@, ..self@ }),
    {
        ArxivQueryBuilder { id_list: String::from_str(id_list), ..self }
    }

    /// Sets the result offset.
    pub fn start(self, start: i32) -> (r: ArxivQueryBuilder)
        ensures
            r@ == (QueryView { start: Some(start), ..self@ }),
    {
        ArxivQueryBuilder { start: Some(start), ..self }
    }

    /// Sets the result-count limit.
    pub fn max_results(self, max_results: i32) -> (r: ArxivQueryBuilder)
        ensures
            r@ == (QueryView { max_results: Some(max_results), ..self@ }),
    {
        ArxivQueryBuilder { max_results: Some(max_results), ..self }
    }

    /// Sets the sort key.
    pub fn sort_by(self, sort_by: &str) -> (r: ArxivQueryBuilder)
        ensures
            r@ == (QueryView { sort_by: sort_by@, ..self@ }),
    {
        ArxivQueryBuilder { sort_by: String::from_str(sort_by), ..self }
    }

    /// Sets the sort direction.
    pub fn sort_order(self, sort_order: &str) -> (r: ArxivQueryBuilder)
        ensures
            r@ == (QueryView { sort_order: sort_order@, ..self@ }),
    {
        ArxivQueryBuilder { sort_order: String::from_str(sort_order), ..self }
    }

    /// The immutable descriptor. Fails exactly when no search scope was
    /// ever set: neither a search expression nor an identifier list.
    pub fn build(self) -> (r: Option<ArxivQuery>)
        ensures
            (self@.search_query.len() == 0 && self@.id_list.len() == 0) <==> r is None,
            (match r {
                Some(q) => q@ == self@,
                None => true,
            }),
    {
        if self.search_query.as_str().is_empty() && self.id_list.as_str().is_empty() {
            None
        } else {
            Some(
                ArxivQuery {
                    base_url: self.base_url,
                    search_query: self.search_query,
                    id_list: self.id_list,
                    start: self.start,
                    max_results: self.max_results,
                    sort_by: self.sort_by,
                    sort_order: self.sort_order,
                },
            )
        }
    }
}

// ---------------------------------------------------------------------------
// decimal rendering
// ---------------------------------------------------------------------------

/// The decimal digit character for one digit value.
pub open spec fn digit_char(d: int) -> char {
    if d == 0 {
        '0'
    } else if d == 1 {
        '1'
    } else if d == 2 {
        '2'
    } else if d == 3 {
        '3'
    } else if d == 4 {
        '4'
    } else if d == 5 {
        '5'
    } else if d == 6 {
        '6'
    } else if d == 7 {
        '7'
    } else if d == 8 {
        '8'
    } else {
        '9'
    }
}

/// The decimal digits of a non-negative number, most significant first.
pub open spec fn dec_digits(n: int) -> Seq<char>
    decreases n when n >= 0
{
    if n < 10 {
        seq![digit_char(n)]
    } else {
        dec_digits(n / 10).push(digit_char(n % 10))
    }
}

/// The decimal text of a number, with a leading minus where negative.
pub open spec fn spec_i32_dec(n: int) -> Seq<char> {
    if n < 0 {
        seq!['-'] + dec_digits(-n)
    } else {
        dec_digits(n)
    }
}

/// The one-character string for one digit value.
fn digit_str(d: u32) -> (r: &'static str)
    requires
        d < 10,
    ensures
        r@ == seq![digit_char(d as int)],
{
    proof {
        reveal_strlit("0");
        reveal_strlit("1");
        reveal_strlit("2");
        reveal_strlit("3");
        reveal_strlit("4");
        reveal_strlit("5");
        reveal_strlit("6");
        reveal_strlit("7");
        reveal_strlit("8");
        reveal_strlit("9");
    }
    let r = match d {
        0 => "0",
        1 => "1",
        2 => "2",
        3 => "3",
        4 => "4",
        5 => "5",
        6 => "6",
        7 => "7",
        8 => "8",
        _ => "9",
    };
    proof {
        assert(r@ =~= seq![digit_char(d as int)]);
    }
    r
}

/// Appends the decimal digits of a non-negative number.
fn push_u32_dec(out: &mut String, n: u32)
    ensures
        final(out)@ == old(out)@ + dec_digits(n as int),
    decreases n,
{
    if n < 10 {
        out.append(digit_str(n));
        proof {
            assert(final(out)@ =~= old(out)@ + dec_digits(n as int));
        }
    } else {
        push_u32_dec(out, n / 10);
        out.append(digit_str(n % 10));
        proof {
            assert(final(out)@ =~= old(out)@ + dec_digits(n as int));
        }
    }
}

/// Appends the decimal text of a number, minus sign included.
fn push_i32_dec(out: &mut String, n: i32)
    ensures
        final(out)@ == old(out)@ + spec_i32_dec(n as int),
{
    if n < 0 {
        out.append("-");
        let m: u32 = (-(n as i64)) as u32;
        proof {
            assert(m as int == -(n as int));
        }
        push_u32_dec(out, m);
        proof {
            reveal_strlit("-");
            assert("-"@ =~= seq!['-']);
            assert(final(out)@ =~= old(out)@ + spec_i32_dec(n as int));
        }
    } else {
        push_u32_dec(out, n as u32);
    }
}

// ---------------------------------------------------------------------------
// the query string
// ---------------------------------------------------------------------------

/// The query parameters that are present, each as `name=value`, in their
/// fixed order: search expression, identifier list, offset, result limit,
/// sort key, sort direction. Unset or empty ones are left out.
pub open spec fn spec_params(q: QueryView) -> Seq<Seq<char>> {
    let s1 = if q.search_query.len() > 0 {
        seq![("search_query="@ + q.search_query)]
    } else {
        Seq::<Seq<char>>::empty()
    };
    let s2 = if q.id_list.len() > 0 {
        seq![("id_list="@ + q.id_list)]
    } else {
        Seq::<Seq<char>>::empty()
    };
    let s3 = match q.start {
        Some(v) => seq![("start="@ + spec_i32_dec(v as int))],
        None => Seq::<Seq<char>>::empty(),
    };
    let s4 = match q.max_results {
        Some(v) => seq![("max_results="@ + spec_i32_dec(v as int))],
        None => Seq::<Seq<char>>::empty(),
    };
    let s5 = if q.sort_by.len() > 0 {
        seq![("sortBy="@ + q.sort_by)]
    } else {
        Seq::<Seq<char>>::empty()
    };
    let s6 = if q.sort_order.len() > 0 {
        seq![("sortOrder="@ + q.sort_order)]
    } else {
        Seq::<Seq<char>>::empty()
    };
    s1 + s2 + s3 + s4 + s5 + s6
}

/// The parts joined with `&` between them.
pub open spec fn spec_join_amp(parts: Seq<Seq<char>>) -> Seq<char>
    decreases parts.len(),
{
    if parts.len() == 0 {
        Seq::<char>::empty()
    } else if parts.len() == 1 {
        parts[0]
    } else {
        parts[0] + seq!['&'] + spec_join_amp(parts.skip(1))
    }
}

/// The full query string: the endpoint, `?`, and the joined parameters.
pub open spec fn spec_query_url(q: QueryView) -> Seq<char> {
    q.base_url + seq!['?'] + spec_join_amp(spec_params(q))
}

/// Joining one more part appends `&` and the part, except to an empty join.
proof fn lemma_join_push(parts: Seq<Seq<char>>, x: Seq<char>)
    ensures
        parts.len() == 0 ==> spec_join_amp(parts.push(x)) == x,
        parts.len() > 0 ==> spec_join_amp(parts.push(x)) == spec_join_amp(parts) + seq!['&'] + x,
    decreases parts.len(),
{
    let p2 = parts.push(x);
    if parts.len() == 0 {
        assert(p2.len() == 1);
        assert(p2[0] == x);
    } else {
        assert(p2[0] == parts[0]);
        assert(p2.skip(1) =~= parts.skip(1).push(x));
        lemma_join_push(parts.skip(1), x);
        if parts.len() == 1 {
            assert(parts.skip(1).len() == 0);
            assert(spec_join_amp(p2) == p2[0] + seq!['&'] + spec_join_amp(p2.skip(1)));
            assert(spec_join_amp(p2.skip(1)) == x);
            assert(spec_join_amp(parts) == parts[0]);
        } else {
            assert(spec_join_amp(p2) =~= spec_join_amp(parts) + seq!['&'] + x);
        }
    }
}

impl ArxivQuery {
    /// The fully formed query string for this descriptor.
    #[verifier::rlimit(60)]
    pub fn to_url(&self) -> (r: String)
        ensures
            r@ == spec_query_url(self@),
    {
        let mut parts: Vec<String> = Vec::new();
        proof {
            reveal_strlit("search_query=");
            reveal_strlit("id_list=");
            reveal_strlit("start=");
            reveal_strlit("max_results=");
            reveal_strlit("sortBy=");
            reveal_strlit("sortOrder=");
            reveal_strlit("?");
            reveal_strlit("&");
        }
        if !self.search_query.as_str().is_empty() {
            let mut p = String::from_str("search_query=");
            p.append(self.search_query.as_str());
            parts.push(p);
        }
        if !self.id_list.as_str().is_empty() {
            let mut p = String::from_str("id_list=");
            p.append(self.id_list.as_str());
            parts.push(p);
        }
        match self.start {
            Some(v) => {
                let mut p = String::from_str("start=");
                push_i32_dec(&mut p, v);
                parts.push(p);
            },
            None => {},
        }
        match self.max_results {
            Some(v) => {
                let mut p = String::from_str("max_results=");
                push_i32_dec(&mut p, v);
                parts.push(p);
            },
            None => {},
        }
        if !self.sort_by.as_str().is_empty() {
            let mut p = String::from_str("sortBy=");
            p.append(self.sort_by.as_str());
            parts.push(p);
        }
        if !self.sort_order.as_str().is_empty() {
            let mut p = String::from_str("sortOrder=");
            p.append(self.sort_order.as_str());
            parts.push(p);
        }
        proof {
            assert(parts.deep_view() =~= spec_params(self@));
        }
        let mut url = self.base_url.clone();
        url.append("?");
        proof {
            assert("?"@ =~= seq!['?']);
            assert("&"@ =~= seq!['&']);
        }
        let ghost pv = parts.deep_view();
        let mut k: usize = 0;
        while k < parts.len()
            invariant
                k <= parts.len(),
                pv == parts.deep_view(),
                pv.len() == parts@.len(),
                "&"@ == seq!['&'],
                url@ == self.base_url@ + seq!['?'] + spec_join_amp(pv.take(k as int)),
            decreases parts.len() - k,
        {
            if k > 0 {
                url.append("&");
            }
            url.append(parts[k].as_str());
            proof {
                assert(pv[k as int] == parts@[k as int]@);
                assert(pv.take(k + 1int) =~= pv.take(k as int).push(pv[k as int]));
                lemma_join_push(pv.take(k as int), pv[k as int]);
                if k == 0 {
                    assert(pv.take(0int).len() == 0);
                    assert(url@ =~= self.base_url@ + seq!['?'] + spec_join_amp(pv.take(1int)));
                } else {
                    assert(url@ =~= self.base_url@ + seq!['?'] + spec_join_amp(pv.take(k + 1int)));
                }
            }
            k = k + 1;
        }
        proof {
            assert(pv.take(parts@.len() as int) =~= pv);
        }
        url
    }
}

/// The request for one configured source: papers of the category, from
/// offset zero, at most `limit` results, ordered by last update time,
/// most recent first.
pub fn source_query(category: &str, limit: i32) -> (r: ArxivQuery)
    ensures
        r@.base_url == "http://export.arxiv.org/api/query"@,
        r@.search_query == "cat:"@ + category@,
        r@.id_list.len() == 0,
        r@.start == Some(0i32),
        r@.max_results == Some(limit),
        r@.sort_by == "lastUpdatedDate"@,
        r@.sort_order == "descending"@,
{
    let mut expr = String::from_str("cat:");
    expr.append(category);
    let built = ArxivQueryBuilder::new().search_query(expr.as_str()).start(0).max_results(
        limit,
    ).sort_by("lastUpdatedDate").sort_order("descending").build();
    proof {
        reveal_strlit("cat:");
    }
    match built {
        Some(q) => q,
        None => {
            proof {
                assert("cat:"@.len() == 4);
                assert(false);
            }
            ArxivQuery {
                base_url: String::new(),
                search_query: String::new(),
                id_list: String::new(),
                start: None,
                max_results: None,
                sort_by: String::new(),
                sort_order: String::new(),
            }
        },
    }
}

} // verus!
