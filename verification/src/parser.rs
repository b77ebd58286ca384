//! The feed parser: a streaming state machine over feed events.
//!
//! One feed document is consumed event by event. A single paper record is
//! accumulated; a start tag of a recognized element routes the following
//! character data into one field; `</entry>` pushes a copy of the
//! accumulator onto the output; `</feed>` ends the parse, whatever may
//! follow. Any XML error or malformed timestamp aborts the whole parse:
//! there is no partial success.

use vstd::prelude::*;
use vstd::string::StrSliceExecFns;
use vstd::string::StringExecFns;

use crate::events::{
    FeedEvent, FeedEventView, feed_events, next_feed_event, open_feed, reader_pending,
    terminal_event,
};
use crate::paper::{Arxiv, ArxivView, empty_arxiv, str_eq};
use crate::time::{parse_timestamp, parsed_timestamp};

verus! {

// ---------------------------------------------------------------------------
// pdf link rewriting
// ---------------------------------------------------------------------------

/// Whether the four characters of `s` starting at `i` spell `http`.
pub open spec fn http_at(s: Seq<char>, i: int) -> bool {
    &&& 0 <= i
    &&& i + 4 <= s.len()
    &&& s[i] == 'h'
    &&& s[i + 1] == 't'
    &&& s[i + 2] == 't'
    &&& s[i + 3] == 'p'
}

/// The position of the first `http` at or after `i`, if any.
pub open spec fn first_http_from(s: Seq<char>, i: int) -> Option<int>
    decreases s.len() - i when 0 <= i
{
    if i + 4 > s.len() {
        None
    } else if http_at(s, i) {
        Some(i)
    } else {
        first_http_from(s, i + 1)
    }
}

/// The stored pdf link for a link attribute value: the first `http` in it
/// is replaced by `https` once, and `.pdf` is appended.
pub open spec fn spec_pdf_url(v: Seq<char>) -> Seq<char> {
    let rewritten = match first_http_from(v, 0) {
        Some(i) => v.take(i) + "https"@ + v.skip(i + 4),
        None => v,
    };
    rewritten + ".pdf"@
}

/// Rewrites a link attribute value into the stored pdf link.
pub fn pdf_rewrite(value: &str) -> (r: String)
    ensures
        r@ == spec_pdf_url(value@),
{
    let n = value.unicode_len();
    let mut found: Option<usize> = None;
    if n >= 4 {
        let mut i: usize = 0;
        while i <= n - 4
            invariant
                n == value@.len(),
                4 <= n,
                i <= n - 4 + 1,
                (match found {
                    Some(k) => first_http_from(value@, 0) == Some(k as int) && k + 4 <= n,
                    None => first_http_from(value@, 0) == first_http_from(value@, i as int),
                }),
            decreases n - i,
        {
            if found.is_none() {
                if value.get_char(i) == 'h' && value.get_char(i + 1) == 't' && value.get_char(
                    i + 2,
                ) == 't' && value.get_char(i + 3) == 'p' {
                    proof {
                        assert(http_at(value@, i as int));
                        assert(first_http_from(value@, i as int) == Some(i as int));
                    }
                    found = Some(i);
                } else {
                    proof {
                        assert(!http_at(value@, i as int));
                        assert(first_http_from(value@, i as int) == first_http_from(
                            value@,
                            i + 1int,
                        ));
                    }
                }
            }
            i = i + 1;
        }
        proof {
            if found is None {
                assert(first_http_from(value@, i as int) is None);
            }
        }
    } else {
        proof {
            assert(first_http_from(value@, 0) is None);
        }
    }
    let mut out: String;
    match found {
        Some(k) => {
            out = String::from_str(value.substring_char(0, k));
            out.append("https");
            out.append(value.substring_char(k + 4, n));
        },
        None => {
            out = String::from_str(value);
        },
    }
    out.append(".pdf");
    proof {
        reveal_strlit("https");
        reveal_strlit(".pdf");
        assert(out@ =~= spec_pdf_url(value@));
    }
    out
}

// ---------------------------------------------------------------------------
// parser state
// ---------------------------------------------------------------------------

/// Where the next run of character data is routed.
///
/// `Idle` means no capture is pending. `AuthorSkip2` and `AuthorSkip1`
/// discard the structural events of the nested name container before
/// `AuthorName` captures the display name itself. Every other variant
/// names the field of the accumulator that the next text event fills.
#[derive(Clone, Copy, Debug, PartialEq, Eq, Structural)]
pub enum Capture {
    Idle,
    Id,
    Updated,
    Published,
    Title,
    Summary,
    Comment,
    AuthorSkip2,
    AuthorSkip1,
    AuthorName,
}

/// A parse error. The parser is all-or-nothing per feed document.
#[derive(Clone, Debug, PartialEq, Eq)]
pub enum FeedError {
    /// The document stream ended before `</feed>` was seen.
    Truncated,
    /// An `<updated>` or `<published>` text was not a valid timestamp.
    BadTimestamp,
    /// The event source reported an XML well-formedness or input error.
    Xml { message: String },
}

/// Mathematical value of a [`FeedError`].
#[verifier::ext_equal]
pub ghost enum FeedErrorView {
    Truncated,
    BadTimestamp,
    Xml { message: Seq<char> },
}

impl View for FeedError {
    type V = FeedErrorView;

    open spec fn view(&self) -> FeedErrorView {
        match self {
            FeedError::Truncated => FeedErrorView::Truncated,
            FeedError::BadTimestamp => FeedErrorView::BadTimestamp,
            FeedError::Xml { message } => FeedErrorView::Xml { message: message@ },
        }
    }
}

/// Mathematical value of a [`ParseState`].
#[verifier::ext_equal]
pub ghost struct ParseStateView {
    pub current: ArxivView,
    pub done: Seq<ArxivView>,
    pub capture: Capture,
}

/// The accumulator of the state machine: the paper under construction,
/// the records already completed, and the pending capture.
#[derive(Clone, Debug)]
pub struct ParseState {
    pub current: Arxiv,
    pub done: Vec<Arxiv>,
    pub capture: Capture,
}

impl View for ParseState {
    type V = ParseStateView;

    open spec fn view(&self) -> ParseStateView {
        ParseStateView {
            current: self.current@,
            done: self.done.deep_view(),
            capture: self.capture,
        }
    }
}

/// The state before any event: an empty accumulator, no output, no capture.
pub open spec fn init_state() -> ParseStateView {
    ParseStateView { current: empty_arxiv(), done: Seq::<ArxivView>::empty(), capture: Capture::Idle }
}

impl ParseState {
    /// A fresh state machine.
    pub fn new() -> (r: ParseState)
        ensures
            r@ == init_state(),
    {
        let r = ParseState { current: Arxiv::new(), done: Vec::new(), capture: Capture::Idle };
        proof {
            assert(r.done.deep_view() =~= Seq::<ArxivView>::empty());
        }
        r
    }
}

/// What one step of the machine yields: the next state, the finished
/// output (on `</feed>`), or a parse error.
#[verifier::ext_equal]
pub ghost enum StepResult {
    Continue(ParseStateView),
    Done(Seq<ArxivView>),
    Fail(FeedErrorView),
}

// ---------------------------------------------------------------------------
// the transition function
// ---------------------------------------------------------------------------

/// The transition out of a state with no pending capture.
pub open spec fn spec_step_idle(st: ParseStateView, ev: FeedEventView) -> StepResult {
    match ev {
        FeedEventView::Start { name, attrs } => {
            if name == "entry"@ {
                StepResult::Continue(ParseStateView { current: empty_arxiv(), ..st })
            } else if name == "id"@ {
                StepResult::Continue(ParseStateView { capture: Capture::Id, ..st })
            } else if name == "updated"@ {
                StepResult::Continue(ParseStateView { capture: Capture::Updated, ..st })
            } else if name == "published"@ {
                StepResult::Continue(ParseStateView { capture: Capture::Published, ..st })
            } else if name == "title"@ {
                StepResult::Continue(ParseStateView { capture: Capture::Title, ..st })
            } else if name == "summary"@ {
                StepResult::Continue(ParseStateView { capture: Capture::Summary, ..st })
            } else if name == "comment"@ {
                StepResult::Continue(ParseStateView { capture: Capture::Comment, ..st })
            } else if name == "author"@ {
                StepResult::Continue(ParseStateView { capture: Capture::AuthorSkip2, ..st })
            } else if name == "link"@ {
                if attrs.len() >= 2 && attrs[0].value == "pdf"@ {
                    StepResult::Continue(
                        ParseStateView {
                            current: ArxivView { pdf_url: spec_pdf_url(attrs[1].value), ..st.current },
                            ..st
                        },
                    )
                } else {
                    StepResult::Continue(st)
                }
            } else {
                StepResult::Continue(st)
            }
        },
        FeedEventView::End { name } => {
            if name == "entry"@ {
                StepResult::Continue(ParseStateView { done: st.done.push(st.current), ..st })
            } else if name == "feed"@ {
                StepResult::Done(st.done)
            } else {
                StepResult::Continue(st)
            }
        },
        FeedEventView::Text { .. } => StepResult::Continue(st),
        FeedEventView::DocEnd => StepResult::Fail(FeedErrorView::Truncated),
        FeedEventView::Other => StepResult::Continue(st),
        FeedEventView::Bad { message } => StepResult::Fail(FeedErrorView::Xml { message }),
    }
}

/// The transition out of a state whose pending capture routes the next
/// text into `field` of the accumulator; any other event is consumed and
/// merely clears the capture, as the underlying pull loop does.
pub open spec fn spec_step_capture(st: ParseStateView, ev: FeedEventView) -> StepResult {
    let cleared = ParseStateView { capture: Capture::Idle, ..st };
    match ev {
        FeedEventView::Text { text } => {
            let cur = st.current;
            match st.capture {
                Capture::Id => StepResult::Continue(
                    ParseStateView { current: ArxivView { id: text, ..cur }, capture: Capture::Idle, ..st },
                ),
                Capture::Title => StepResult::Continue(
                    ParseStateView { current: ArxivView { title: text, ..cur }, capture: Capture::Idle, ..st },
                ),
                Capture::Summary => StepResult::Continue(
                    ParseStateView { current: ArxivView { summary: text, ..cur }, capture: Capture::Idle, ..st },
                ),
                Capture::Comment => StepResult::Continue(
                    ParseStateView {
                        current: ArxivView { comment: Some(text), ..cur },
                        capture: Capture::Idle,
                        ..st
                    },
                ),
                Capture::AuthorName => StepResult::Continue(
                    ParseStateView {
                        current: ArxivView { authors: cur.authors.push(text), ..cur },
                        capture: Capture::Idle,
                        ..st
                    },
                ),
                Capture::Updated => match parsed_timestamp(text) {
                    Some(t) => StepResult::Continue(
                        ParseStateView {
                            current: ArxivView { updated: t as int, ..cur },
                            capture: Capture::Idle,
                            ..st
                        },
                    ),
                    None => StepResult::Fail(FeedErrorView::BadTimestamp),
                },
                Capture::Published => match parsed_timestamp(text) {
                    Some(t) => StepResult::Continue(
                        ParseStateView {
                            current: ArxivView { published: t as int, ..cur },
                            capture: Capture::Idle,
                            ..st
                        },
                    ),
                    None => StepResult::Fail(FeedErrorView::BadTimestamp),
                },
                _ => StepResult::Continue(cleared),
            }
        },
        FeedEventView::DocEnd => StepResult::Fail(FeedErrorView::Truncated),
        FeedEventView::Bad { message } => StepResult::Fail(FeedErrorView::Xml { message }),
        _ => StepResult::Continue(cleared),
    }
}

/// One transition of the state machine on one event.
pub open spec fn spec_step(st: ParseStateView, ev: FeedEventView) -> StepResult {
    match st.capture {
        Capture::Idle => spec_step_idle(st, ev),
        Capture::AuthorSkip2 => match ev {
            FeedEventView::DocEnd => StepResult::Fail(FeedErrorView::Truncated),
            FeedEventView::Bad { message } => StepResult::Fail(FeedErrorView::Xml { message }),
            _ => StepResult::Continue(ParseStateView { capture: Capture::AuthorSkip1, ..st }),
        },
        Capture::AuthorSkip1 => match ev {
            FeedEventView::DocEnd => StepResult::Fail(FeedErrorView::Truncated),
            FeedEventView::Bad { message } => StepResult::Fail(FeedErrorView::Xml { message }),
            _ => StepResult::Continue(ParseStateView { capture: Capture::AuthorName, ..st }),
        },
        _ => spec_step_capture(st, ev),
    }
}

/// Runs the machine over a whole event sequence from state `st`.
/// An exhausted sequence without `</feed>` is a truncated feed.
pub open spec fn spec_parse(st: ParseStateView, evs: Seq<FeedEventView>) -> Result<
    Seq<ArxivView>,
    FeedErrorView,
>
    decreases evs.len(),
{
    if evs.len() == 0 {
        Err(FeedErrorView::Truncated)
    } else {
        match spec_step(st, evs[0]) {
            StepResult::Continue(s2) => spec_parse(s2, evs.skip(1)),
            StepResult::Done(out) => Ok(out),
            StepResult::Fail(e) => Err(e),
        }
    }
}

/// Runs the machine as far as the sequence carries it, without demanding
/// that the parse finishes: the partial-run companion of [`spec_parse`].
pub open spec fn spec_run(st: ParseStateView, evs: Seq<FeedEventView>) -> StepResult
    decreases evs.len(),
{
    if evs.len() == 0 {
        StepResult::Continue(st)
    } else {
        match spec_step(st, evs[0]) {
            StepResult::Continue(s2) => spec_run(s2, evs.skip(1)),
            r => r,
        }
    }
}

// ---------------------------------------------------------------------------
// the executable machine
// ---------------------------------------------------------------------------

/// What one executable step reports to the driving loop.
pub enum StepFlow {
    /// The machine wants the next event.
    Next,
    /// `</feed>` was seen: `done` holds the finished output.
    Finished,
    /// The parse failed.
    Failed(FeedError),
}

impl ParseState {
    /// Feeds one event to the machine. Mirrors [`spec_step`] exactly.
    pub fn step(&mut self, ev: &FeedEvent) -> (r: StepFlow)
        ensures
            (match r {
                StepFlow::Next => spec_step(old(self)@, ev@) == StepResult::Continue(final(self)@),
                StepFlow::Finished => final(self)@ == old(self)@ && spec_step(old(self)@, ev@)
                    == StepResult::Done(final(self)@.done),
                StepFlow::Failed(e) => spec_step(old(self)@, ev@) == StepResult::Fail(e@),
            }),
    {
        match self.capture {
            Capture::Idle => self.step_idle(ev),
            Capture::AuthorSkip2 => match ev {
                FeedEvent::DocEnd => StepFlow::Failed(FeedError::Truncated),
                FeedEvent::Bad { message } => StepFlow::Failed(
                    FeedError::Xml { message: message.clone() },
                ),
                _ => {
                    self.capture = Capture::AuthorSkip1;
                    StepFlow::Next
                },
            },
            Capture::AuthorSkip1 => match ev {
                FeedEvent::DocEnd => StepFlow::Failed(FeedError::Truncated),
                FeedEvent::Bad { message } => StepFlow::Failed(
                    FeedError::Xml { message: message.clone() },
                ),
                _ => {
                    self.capture = Capture::AuthorName;
                    StepFlow::Next
                },
            },
            _ => self.step_capture(ev),
        }
    }

    /// One step out of the idle state.
    fn step_idle(&mut self, ev: &FeedEvent) -> (r: StepFlow)
        requires
            old(self)@.capture == Capture::Idle,
        ensures
            (match r {
                StepFlow::Next => spec_step(old(self)@, ev@) == StepResult::Continue(final(self)@),
                StepFlow::Finished => final(self)@ == old(self)@ && spec_step(old(self)@, ev@)
                    == StepResult::Done(final(self)@.done),
                StepFlow::Failed(e) => spec_step(old(self)@, ev@) == StepResult::Fail(e@),
            }),
    {
        match ev {
            FeedEvent::Start { name, attrs } => {
                if str_eq(name.as_str(), "entry") {
                    self.current = Arxiv::new();
                } else if str_eq(name.as_str(), "id") {
                    self.capture = Capture::Id;
                } else if str_eq(name.as_str(), "updated") {
                    self.capture = Capture::Updated;
                } else if str_eq(name.as_str(), "published") {
                    self.capture = Capture::Published;
                } else if str_eq(name.as_str(), "title") {
                    self.capture = Capture::Title;
                } else if str_eq(name.as_str(), "summary") {
                    self.capture = Capture::Summary;
                } else if str_eq(name.as_str(), "comment") {
                    self.capture = Capture::Comment;
                } else if str_eq(name.as_str(), "author") {
                    self.capture = Capture::AuthorSkip2;
                } else if str_eq(name.as_str(), "link") {
                    if attrs.len() >= 2 && str_eq(attrs[0].value.as_str(), "pdf") {
                        proof {
                            assert(attrs.deep_view()[0] == attrs@[0]@);
                            assert(attrs.deep_view()[1] == attrs@[1]@);
                        }
                        self.current.pdf_url = pdf_rewrite(attrs[1].value.as_str());
                    } else {
                        proof {
                            assert(attrs.deep_view().len() == attrs@.len());
                            if attrs.deep_view().len() >= 2 {
                                assert(attrs.deep_view()[0] == attrs@[0]@);
                            }
                        }
                    }
                }
                StepFlow::Next
            },
            FeedEvent::End { name } => {
                if str_eq(name.as_str(), "entry") {
                    let ghost prev = self.done.deep_view();
                    self.done.push(self.current.duplicate());
                    proof {
                        assert(self.done.deep_view() =~= prev.push(self.current@));
                    }
                    StepFlow::Next
                } else if str_eq(name.as_str(), "feed") {
                    StepFlow::Finished
                } else {
                    StepFlow::Next
                }
            },
            FeedEvent::Text { .. } => StepFlow::Next,
            FeedEvent::DocEnd => StepFlow::Failed(FeedError::Truncated),
            FeedEvent::Other => StepFlow::Next,
            FeedEvent::Bad { message } => StepFlow::Failed(
                FeedError::Xml { message: message.clone() },
            ),
        }
    }

    /// One step out of a pending single-field capture.
    fn step_capture(&mut self, ev: &FeedEvent) -> (r: StepFlow)
        requires
            old(self)@.capture != Capture::Idle,
            old(self)@.capture != Capture::AuthorSkip2,
            old(self)@.capture != Capture::AuthorSkip1,
        ensures
            (match r {
                StepFlow::Next => spec_step(old(self)@, ev@) == StepResult::Continue(final(self)@),
                StepFlow::Finished => final(self)@ == old(self)@ && spec_step(old(self)@, ev@)
                    == StepResult::Done(final(self)@.done),
                StepFlow::Failed(e) => spec_step(old(self)@, ev@) == StepResult::Fail(e@),
            }),
    {
        match ev {
            FeedEvent::Text { text } => {
                let cap = self.capture;
                self.capture = Capture::Idle;
                match cap {
                    Capture::Id => {
                        self.current.id = text.clone();
                        StepFlow::Next
                    },
                    Capture::Title => {
                        self.current.title = text.clone();
                        StepFlow::Next
                    },
                    Capture::Summary => {
                        self.current.summary = text.clone();
                        StepFlow::Next
                    },
                    Capture::Comment => {
                        self.current.comment = Some(text.clone());
                        StepFlow::Next
                    },
                    Capture::AuthorName => {
                        let ghost prev = self.current.authors.deep_view();
                        self.current.authors.push(text.clone());
                        proof {
                            assert(self.current.authors.deep_view() =~= prev.push(text@));
                        }
                        StepFlow::Next
                    },
                    Capture::Updated => match parse_timestamp(text.as_str()) {
                        Some(t) => {
                            self.current.updated = t;
                            StepFlow::Next
                        },
                        None => StepFlow::Failed(FeedError::BadTimestamp),
                    },
                    Capture::Published => match parse_timestamp(text.as_str()) {
                        Some(t) => {
                            self.current.published = t;
                            StepFlow::Next
                        },
                        None => StepFlow::Failed(FeedError::BadTimestamp),
                    },
                    _ => StepFlow::Next,
                }
            },
            FeedEvent::DocEnd => StepFlow::Failed(FeedError::Truncated),
            FeedEvent::Bad { message } => StepFlow::Failed(
                FeedError::Xml { message: message.clone() },
            ),
            _ => {
                self.capture = Capture::Idle;
                StepFlow::Next
            },
        }
    }
}

// ---------------------------------------------------------------------------
// driving the machine
// ---------------------------------------------------------------------------

/// Parses a complete event sequence into paper records, exactly as
/// [`spec_parse`] reads it from the initial state.
pub fn parse_events(events: &Vec<FeedEvent>) -> (r: Result<Vec<Arxiv>, FeedError>)
    ensures
        (match r {
            Ok(papers) => spec_parse(init_state(), events.deep_view()) == Ok::<_, FeedErrorView>(
                papers.deep_view(),
            ),
            Err(e) => spec_parse(init_state(), events.deep_view()) == Err::<Seq<ArxivView>, _>(e@),
        }),
{
    let ghost evs = events.deep_view();
    let mut st = ParseState::new();
    let mut i: usize = 0;
    proof {
        assert(evs.skip(0) =~= evs);
    }
    while i < events.len()
        invariant
            i <= events.len(),
            evs == events.deep_view(),
            evs.len() == events@.len(),
            spec_parse(init_state(), evs) == spec_parse(st@, evs.skip(i as int)),
        decreases events.len() - i,
    {
        proof {
            assert(evs[i as int] == events@[i as int]@);
            assert(evs.skip(i as int)[0] == evs[i as int]);
            assert(evs.skip(i as int).skip(1) =~= evs.skip(i + 1int));
        }
        match st.step(&events[i]) {
            StepFlow::Next => {
                i = i + 1;
            },
            StepFlow::Finished => {
                return Ok(st.done);
            },
            StepFlow::Failed(e) => {
                return Err(e);
            },
        }
    }
    proof {
        assert(evs.skip(i as int) =~= Seq::<FeedEventView>::empty());
    }
    Err(FeedError::Truncated)
}

/// Parses one feed document, exactly as [`spec_parse`] reads the
/// document's event stream from the initial state.
///
/// The events are pulled one at a time from the `xml` crate's reader;
/// their sequence is a function of the document text alone, named
/// [`feed_events`], so equal documents parse to equal results. The loop
/// ends at the latest on the stream's final end-of-document or error
/// event, on which the machine always fails.
pub fn parse_data(body: &str) -> (r: Result<Vec<Arxiv>, FeedError>)
    ensures
        (match r {
            Ok(papers) => spec_parse(init_state(), feed_events(body@)) == Ok::<_, FeedErrorView>(
                papers.deep_view(),
            ),
            Err(e) => spec_parse(init_state(), feed_events(body@)) == Err::<Seq<ArxivView>, _>(e@),
        }),
{
    let mut reader = open_feed(body);
    let mut st = ParseState::new();
    let ghost full = feed_events(body@);
    loop
        invariant
            full == feed_events(body@),
            reader_pending(reader).len() >= 1,
            terminal_event(reader_pending(reader).last()),
            spec_parse(init_state(), full) == spec_parse(st@, reader_pending(reader)),
        decreases reader_pending(reader).len(),
    {
        let ghost pending = reader_pending(reader);
        let ev = next_feed_event(&mut reader);
        let ghost before = st@;
        proof {
            assert(ev@ == pending[0]);
        }
        match st.step(&ev) {
            StepFlow::Next => {
                proof {
                    if pending.len() == 1 {
                        assert(pending[0] == pending.last());
                        lemma_step_terminal(before, ev@);
                    }
                    assert(pending.len() > 1);
                    assert(reader_pending(reader) == pending.skip(1));
                    assert(pending.skip(1).last() == pending.last());
                    assert(spec_parse(before, pending) == spec_parse(st@, pending.skip(1)));
                }
            },
            StepFlow::Finished => {
                proof {
                    assert(spec_parse(before, pending) == Ok::<_, FeedErrorView>(st@.done));
                }
                return Ok(st.done);
            },
            StepFlow::Failed(e) => {
                proof {
                    assert(spec_parse(before, pending) == Err::<Seq<ArxivView>, _>(e@));
                }
                return Err(e);
            },
        }
    }
}

/// The machine fails on an end-of-document or error event, whatever its
/// state: such an event never continues or finishes a parse.
pub proof fn lemma_step_terminal(st: ParseStateView, ev: FeedEventView)
    requires
        terminal_event(ev),
    ensures
        spec_step(st, ev) is Fail,
{
}

// ---------------------------------------------------------------------------
// laws of the machine
// ---------------------------------------------------------------------------

/// Where a partial run of `evs` from `s0` is still going in state `s1`,
/// parsing or running `evs + rest` from `s0` is parsing or running `rest`
/// from `s1`: event history composes.
pub proof fn lemma_run_append(
    s0: ParseStateView,
    evs: Seq<FeedEventView>,
    rest: Seq<FeedEventView>,
    s1: ParseStateView,
)
    requires
        spec_run(s0, evs) == StepResult::Continue(s1),
    ensures
        spec_parse(s0, evs + rest) == spec_parse(s1, rest),
        spec_run(s0, evs + rest) == spec_run(s1, rest),
    decreases evs.len(),
{
    if evs.len() == 0 {
        assert(evs + rest =~= rest);
    } else {
        match spec_step(s0, evs[0]) {
            StepResult::Continue(s2) => {
                assert((evs + rest).skip(1) =~= evs.skip(1) + rest);
                lemma_run_append(s2, evs.skip(1), rest, s1);
            },
            _ => {},
        }
    }
}

/// The parse of a document ends at `</feed>`: where an event sequence
/// already parses to a finished output, any trailing events leave that
/// output untouched.
pub proof fn lemma_parse_ignores_trailing(
    st: ParseStateView,
    evs: Seq<FeedEventView>,
    extra: Seq<FeedEventView>,
)
    requires
        spec_parse(st, evs) is Ok,
    ensures
        spec_parse(st, evs + extra) == spec_parse(st, evs),
    decreases evs.len(),
{
    if evs.len() == 0 {
    } else {
        assert((evs + extra)[0] == evs[0]);
        match spec_step(st, evs[0]) {
            StepResult::Continue(s2) => {
                assert((evs + extra).skip(1) =~= evs.skip(1) + extra);
                lemma_parse_ignores_trailing(s2, evs.skip(1), extra);
            },
            _ => {},
        }
    }
}

/// One parse step that continues consumes exactly one event.
proof fn parse_step_continue(
    st: ParseStateView,
    st2: ParseStateView,
    evs: Seq<FeedEventView>,
    i: int,
)
    requires
        0 <= i < evs.len(),
        spec_step(st, evs[i]) == StepResult::Continue(st2),
    ensures
        spec_parse(st, evs.skip(i)) == spec_parse(st2, evs.skip(i + 1)),
{
    assert(evs.skip(i)[0] == evs[i]);
    assert(evs.skip(i).skip(1) =~= evs.skip(i + 1));
}

/// The events of a minimal feed document: one entry carrying every
/// recognized field, inside the enclosing feed element. The two events
/// after the author's start tag stand for the nested name container.
pub open spec fn minimal_entry_events(
    idv: Seq<char>,
    ut: Seq<char>,
    pt: Seq<char>,
    tv: Seq<char>,
    sv: Seq<char>,
    av: Seq<char>,
    url: Seq<char>,
    cv: Seq<char>,
) -> Seq<FeedEventView> {
    seq![
        FeedEventView::Start { name: "feed"@, attrs: Seq::<crate::events::AttrView>::empty() },
        FeedEventView::Start { name: "entry"@, attrs: Seq::<crate::events::AttrView>::empty() },
        FeedEventView::Start { name: "id"@, attrs: Seq::<crate::events::AttrView>::empty() },
        FeedEventView::Text { text: idv },
        FeedEventView::Start { name: "updated"@, attrs: Seq::<crate::events::AttrView>::empty() },
        FeedEventView::Text { text: ut },
        FeedEventView::Start { name: "published"@, attrs: Seq::<crate::events::AttrView>::empty() },
        FeedEventView::Text { text: pt },
        FeedEventView::Start { name: "title"@, attrs: Seq::<crate::events::AttrView>::empty() },
        FeedEventView::Text { text: tv },
        FeedEventView::Start { name: "summary"@, attrs: Seq::<crate::events::AttrView>::empty() },
        FeedEventView::Text { text: sv },
        FeedEventView::Start { name: "author"@, attrs: Seq::<crate::events::AttrView>::empty() },
        FeedEventView::Other,
        FeedEventView::Other,
        FeedEventView::Text { text: av },
        FeedEventView::Start {
            name: "link"@,
            attrs: seq![
                crate::events::AttrView { name: "title"@, value: "pdf"@ },
                crate::events::AttrView { name: "href"@, value: url },
            ],
        },
        FeedEventView::Start { name: "comment"@, attrs: Seq::<crate::events::AttrView>::empty() },
        FeedEventView::Text { text: cv },
        FeedEventView::End { name: "entry"@ },
        FeedEventView::End { name: "feed"@ },
    ]
}

/// Parser round trip: the minimal feed document with one entry carrying
/// every recognized field parses to exactly one record whose every field
/// matches, the pdf link rewritten to the secure scheme with the `.pdf`
/// suffix.
#[verifier::rlimit(100)]
pub proof fn lemma_minimal_entry_round_trip(
    idv: Seq<char>,
    ut: Seq<char>,
    uv: i64,
    pt: Seq<char>,
    pv: i64,
    tv: Seq<char>,
    sv: Seq<char>,
    av: Seq<char>,
    url: Seq<char>,
    cv: Seq<char>,
)
    requires
        parsed_timestamp(ut) == Some(uv),
        parsed_timestamp(pt) == Some(pv),
    ensures
        spec_parse(init_state(), minimal_entry_events(idv, ut, pt, tv, sv, av, url, cv)) == Ok::<
            _,
            FeedErrorView,
        >(
            seq![
                ArxivView {
                    id: idv,
                    updated: uv as int,
                    published: pv as int,
                    title: tv,
                    summary: sv,
                    authors: seq![av],
                    pdf_url: spec_pdf_url(url),
                    comment: Some(cv),
                },
            ],
        ),
{
    reveal_strlit("feed");
    reveal_strlit("entry");
    reveal_strlit("id");
    reveal_strlit("updated");
    reveal_strlit("published");
    reveal_strlit("title");
    reveal_strlit("summary");
    reveal_strlit("comment");
    reveal_strlit("author");
    reveal_strlit("link");
    reveal_strlit("pdf");
    reveal_strlit("href");
    let evs = minimal_entry_events(idv, ut, pt, tv, sv, av, url, cv);
    let p0 = empty_arxiv();
    let p1 = ArxivView { id: idv, ..p0 };
    let p2 = ArxivView { updated: uv as int, ..p1 };
    let p3 = ArxivView { published: pv as int, ..p2 };
    let p4 = ArxivView { title: tv, ..p3 };
    let p5 = ArxivView { summary: sv, ..p4 };
    let p6 = ArxivView { authors: seq![av], ..p5 };
    let p7 = ArxivView { pdf_url: spec_pdf_url(url), ..p6 };
    let p8 = ArxivView { comment: Some(cv), ..p7 };
    let none = Seq::<ArxivView>::empty();
    let s0 = init_state();
    assert("feed"@.len() == 4 && "feed"@[0] == 'f');
    assert("entry"@.len() == 5 && "entry"@[0] == 'e');
    assert("id"@.len() == 2);
    assert("updated"@.len() == 7 && "updated"@[0] == 'u');
    assert("published"@.len() == 9);
    assert("title"@.len() == 5 && "title"@[0] == 't');
    assert("summary"@.len() == 7 && "summary"@[0] == 's');
    assert("comment"@.len() == 7 && "comment"@[0] == 'c');
    assert("author"@.len() == 6);
    assert("link"@.len() == 4 && "link"@[0] == 'l');
    assert(spec_step(s0, evs[0]) == StepResult::Continue(s0));
    parse_step_continue(s0, s0, evs, 0);
    assert(spec_step(s0, evs[1]) == StepResult::Continue(s0));
    parse_step_continue(s0, s0, evs, 1);
    let s2 = ParseStateView { current: p0, done: none, capture: Capture::Id };
    assert(spec_step(s0, evs[2]) == StepResult::Continue(s2));
    parse_step_continue(s0, s2, evs, 2);
    let s3 = ParseStateView { current: p1, done: none, capture: Capture::Idle };
    assert(spec_step(s2, evs[3]) == StepResult::Continue(s3));
    parse_step_continue(s2, s3, evs, 3);
    let s4 = ParseStateView { current: p1, done: none, capture: Capture::Updated };
    assert(spec_step(s3, evs[4]) == StepResult::Continue(s4));
    parse_step_continue(s3, s4, evs, 4);
    let s5 = ParseStateView { current: p2, done: none, capture: Capture::Idle };
    assert(spec_step(s4, evs[5]) == StepResult::Continue(s5));
    parse_step_continue(s4, s5, evs, 5);
    let s6 = ParseStateView { current: p2, done: none, capture: Capture::Published };
    assert(spec_step(s5, evs[6]) == StepResult::Continue(s6));
    parse_step_continue(s5, s6, evs, 6);
    let s7 = ParseStateView { current: p3, done: none, capture: Capture::Idle };
    assert(spec_step(s6, evs[7]) == StepResult::Continue(s7));
    parse_step_continue(s6, s7, evs, 7);
    let s8 = ParseStateView { current: p3, done: none, capture: Capture::Title };
    assert(spec_step(s7, evs[8]) == StepResult::Continue(s8));
    parse_step_continue(s7, s8, evs, 8);
    let s9 = ParseStateView { current: p4, done: none, capture: Capture::Idle };
    assert(spec_step(s8, evs[9]) == StepResult::Continue(s9));
    parse_step_continue(s8, s9, evs, 9);
    let s10 = ParseStateView { current: p4, done: none, capture: Capture::Summary };
    assert(spec_step(s9, evs[10]) == StepResult::Continue(s10));
    parse_step_continue(s9, s10, evs, 10);
    let s11 = ParseStateView { current: p5, done: none, capture: Capture::Idle };
    assert(spec_step(s10, evs[11]) == StepResult::Continue(s11));
    parse_step_continue(s10, s11, evs, 11);
    let s12 = ParseStateView { current: p5, done: none, capture: Capture::AuthorSkip2 };
    assert(spec_step(s11, evs[12]) == StepResult::Continue(s12));
    parse_step_continue(s11, s12, evs, 12);
    let s13 = ParseStateView { current: p5, done: none, capture: Capture::AuthorSkip1 };
    assert(spec_step(s12, evs[13]) == StepResult::Continue(s13));
    parse_step_continue(s12, s13, evs, 13);
    let s14 = ParseStateView { current: p5, done: none, capture: Capture::AuthorName };
    assert(spec_step(s13, evs[14]) == StepResult::Continue(s14));
    parse_step_continue(s13, s14, evs, 14);
    let s15 = ParseStateView { current: p6, done: none, capture: Capture::Idle };
    assert(p5.authors.push(av) =~= seq![av]);
    assert(spec_step(s14, evs[15]) == StepResult::Continue(s15));
    parse_step_continue(s14, s15, evs, 15);
    let s16 = ParseStateView { current: p7, done: none, capture: Capture::Idle };
    assert(spec_step(s15, evs[16]) == StepResult::Continue(s16));
    parse_step_continue(s15, s16, evs, 16);
    let s17 = ParseStateView { current: p7, done: none, capture: Capture::Comment };
    assert(spec_step(s16, evs[17]) == StepResult::Continue(s17));
    parse_step_continue(s16, s17, evs, 17);
    let s18 = ParseStateView { current: p8, done: none, capture: Capture::Idle };
    assert(spec_step(s17, evs[18]) == StepResult::Continue(s18));
    parse_step_continue(s17, s18, evs, 18);
    let s19 = ParseStateView { current: p8, done: seq![p8], capture: Capture::Idle };
    assert(none.push(p8) =~= seq![p8]);
    assert(spec_step(s18, evs[19]) == StepResult::Continue(s19));
    parse_step_continue(s18, s19, evs, 19);
    assert(evs.skip(20)[0] == evs[20]);
    assert(spec_step(s19, evs[20]) == StepResult::Done(seq![p8]));
    assert(spec_parse(s19, evs.skip(20)) == Ok::<_, FeedErrorView>(seq![p8]));
    assert(evs.skip(0) =~= evs);
    assert(p8 =~= (ArxivView {
        id: idv,
        updated: uv as int,
        published: pv as int,
        title: tv,
        summary: sv,
        authors: seq![av],
        pdf_url: spec_pdf_url(url),
        comment: Some(cv),
    }));
}

/// Whether a run of the machine over `evs` from `st` never closes an
/// entry while the accumulator's id is blank: the shape of every document
/// whose entries each carry an `<id>` with non-empty text before they
/// close.
pub open spec fn closes_no_blank_entry(st: ParseStateView, evs: Seq<FeedEventView>) -> bool
    decreases evs.len(),
{
    if evs.len() == 0 {
        true
    } else {
        let blank_close = st.capture == Capture::Idle && (evs[0] matches FeedEventView::End {
            name,
        } && name == "entry"@) && st.current.id.len() == 0;
        &&& !blank_close
        &&& (match spec_step(st, evs[0]) {
            StepResult::Continue(s2) => closes_no_blank_entry(s2, evs.skip(1)),
            _ => true,
        })
    }
}

/// The data-model invariant on parsed records: a run that never closes an
/// entry while the accumulator's id is blank — as every feed whose entries
/// carry an identifier runs — yields only records with a non-empty id.
pub proof fn lemma_nonempty_ids(st: ParseStateView, evs: Seq<FeedEventView>, out: Seq<ArxivView>)
    requires
        spec_parse(st, evs) == Ok::<Seq<ArxivView>, FeedErrorView>(out),
        closes_no_blank_entry(st, evs),
        forall|k: int| 0 <= k < st.done.len() ==> (#[trigger] st.done[k]).id.len() > 0,
    ensures
        forall|k: int| 0 <= k < out.len() ==> (#[trigger] out[k]).id.len() > 0,
    decreases evs.len(),
{
    if evs.len() == 0 {
    } else {
        match spec_step(st, evs[0]) {
            StepResult::Continue(s2) => {
                assert forall|k: int| 0 <= k < s2.done.len() implies (#[trigger] s2.done[k]).id.len()
                    > 0 by {
                    if s2.done != st.done {
                        assert(s2.done == st.done.push(st.current));
                        assert(st.current.id.len() > 0);
                        if k < st.done.len() {
                            assert(s2.done[k] == st.done[k]);
                        } else {
                            assert(s2.done[k] == st.current);
                        }
                    }
                }
                lemma_nonempty_ids(s2, evs.skip(1), out);
            },
            StepResult::Done(o) => {
                assert(out == st.done);
            },
            StepResult::Fail(_) => {},
        }
    }
}

/// A malformed timestamp fails the whole parse: where a capture for
/// `<updated>` or `<published>` is pending and the next event carries text
/// that is not a valid timestamp, the parse of everything from here on is
/// the timestamp error, whatever events follow.
pub proof fn lemma_bad_timestamp_fails(st: ParseStateView, evs: Seq<FeedEventView>)
    requires
        st.capture == Capture::Updated || st.capture == Capture::Published,
        evs.len() > 0,
        (evs[0] matches FeedEventView::Text { text } && parsed_timestamp(text) is None),
    ensures
        spec_parse(st, evs) == Err::<Seq<ArxivView>, _>(FeedErrorView::BadTimestamp),
{
}

} // verus!
