//! The per-event decision of the streaming decoder, and reassembly of
//! per-candidate message text from a sequence of decoded events.
//!
//! The transport hands the library one raw outcome per server-sent event; the
//! decision for each is pure: connection-opened notices are skipped, the
//! literal sentinel ends the produced sequence without ever reaching the JSON
//! decoder, a decodable payload is emitted, and a transport failure or an
//! undecodable payload becomes a distinguishable error element after which
//! the stream goes on.

use vstd::prelude::*;

use crate::chat::{
    ChatCompletionChoiceDelta, ChatCompletionEvent, ChatCompletionMessageRole, ChoiceDeltaView,
    Delta, DeltaView, EventView,
};
use crate::codec::{chars_of_str, chars_to_string, decode_event, spec_decode_event, spec_sentinel};
use crate::json::chars_eq;
use vstd::seq_lib::*;

verus! {

/// One raw outcome of the underlying event-stream transport.
#[derive(Debug)]
pub enum RawStreamEvent {
    /// The connection was opened; carries no data.
    Opened,
    /// A data payload, as delivered in an event's data field.
    Message(String),
    /// The transport failed; carries the failure's description.
    TransportError(String),
}

/// The mathematical value of a raw outcome.
pub enum RawStreamEventView {
    Opened,
    Message(Seq<char>),
    TransportError(Seq<char>),
}

impl View for RawStreamEvent {
    type V = RawStreamEventView;

    open spec fn view(&self) -> RawStreamEventView {
        match self {
            RawStreamEvent::Opened => RawStreamEventView::Opened,
            RawStreamEvent::Message(d) => RawStreamEventView::Message(d@),
            RawStreamEvent::TransportError(m) => RawStreamEventView::TransportError(m@),
        }
    }
}

/// Why an element of the produced sequence is an error.
#[derive(Debug)]
pub enum StreamError {
    /// The transport failed; carries the failure's description.
    Transport(String),
    /// A payload did not decode; carries the payload itself.
    Decode(String),
}

/// The mathematical value of a stream error.
pub enum StreamErrorView {
    Transport(Seq<char>),
    Decode(Seq<char>),
}

impl View for StreamError {
    type V = StreamErrorView;

    open spec fn view(&self) -> StreamErrorView {
        match self {
            StreamError::Transport(m) => StreamErrorView::Transport(m@),
            StreamError::Decode(d) => StreamErrorView::Decode(d@),
        }
    }
}

/// What the decoder does with one raw outcome.
#[derive(Debug)]
pub enum StreamStep {
    /// Nothing to emit; the stream goes on.
    Skip,
    /// A decoded event for the consumer.
    Emit(ChatCompletionEvent),
    /// An error element for the consumer; the stream goes on.
    Fail(StreamError),
    /// The clean end of the stream.
    End,
}

/// The mathematical value of a step.
pub enum StreamStepView {
    Skip,
    Emit(EventView),
    Fail(StreamErrorView),
    End,
}

impl View for StreamStep {
    type V = StreamStepView;

    open spec fn view(&self) -> StreamStepView {
        match self {
            StreamStep::Skip => StreamStepView::Skip,
            StreamStep::Emit(e) => StreamStepView::Emit(e@),
            StreamStep::Fail(e) => StreamStepView::Fail(e@),
            StreamStep::End => StreamStepView::End,
        }
    }
}

/// The decision for one raw outcome: skip an opening, end at the sentinel,
/// emit a decodable payload, fail distinguishably otherwise.
pub open spec fn spec_step(raw: RawStreamEventView) -> StreamStepView {
    match raw {
        RawStreamEventView::Opened => StreamStepView::Skip,
        RawStreamEventView::TransportError(m) => StreamStepView::Fail(
            StreamErrorView::Transport(m),
        ),
        RawStreamEventView::Message(d) => {
            if d == spec_sentinel() {
                StreamStepView::End
            } else {
                match spec_decode_event(d) {
                    Some(e) => StreamStepView::Emit(e),
                    None => StreamStepView::Fail(StreamErrorView::Decode(d)),
                }
            }
        },
    }
}

/// Decide what one raw outcome of the transport means.  The sentinel payload
/// always ends the stream and is never handed to the JSON decoder.
pub fn process_raw_event(raw: RawStreamEvent) -> (r: StreamStep)
    ensures
        r@ == spec_step(raw@),
{
    match raw {
        RawStreamEvent::Opened => StreamStep::Skip,
        RawStreamEvent::TransportError(m) => StreamStep::Fail(StreamError::Transport(m)),
        RawStreamEvent::Message(d) => {
            let dv = chars_of_str(d.as_str());
            let sentinel = vec!['[', 'D', 'O', 'N', 'E', ']'];
            assert(sentinel@ =~= spec_sentinel());
            if chars_eq(&dv, &sentinel) {
                StreamStep::End
            } else {
                match decode_event(d.as_str()) {
                    Ok(e) => StreamStep::Emit(e),
                    Err(_) => StreamStep::Fail(StreamError::Decode(d)),
                }
            }
        },
    }
}

/// An element of the produced sequence: an event or an error.
#[derive(Debug)]
pub enum StreamItem {
    Event(ChatCompletionEvent),
    Error(StreamError),
}

/// The mathematical value of a produced element.
pub enum StreamItemView {
    Event(EventView),
    Error(StreamErrorView),
}

impl View for StreamItem {
    type V = StreamItemView;

    open spec fn view(&self) -> StreamItemView {
        match self {
            StreamItem::Event(e) => StreamItemView::Event(e@),
            StreamItem::Error(e) => StreamItemView::Error(e@),
        }
    }
}

pub open spec fn raw_views(s: Seq<RawStreamEvent>) -> Seq<RawStreamEventView> {
    s.map_values(|r: RawStreamEvent| r@)
}

pub open spec fn item_views(s: Seq<StreamItem>) -> Seq<StreamItemView> {
    s.map_values(|r: StreamItem| r@)
}

/// The sequence the consumer sees for a sequence of raw outcomes: openings
/// contribute nothing, the first sentinel ends it, and every other message
/// contributes its event or its error.
pub open spec fn spec_stream(raws: Seq<RawStreamEventView>) -> Seq<StreamItemView>
    decreases raws.len(),
{
    if raws.len() == 0 {
        Seq::empty()
    } else {
        match spec_step(raws[0]) {
            StreamStepView::Skip => spec_stream(raws.skip(1)),
            StreamStepView::End => Seq::empty(),
            StreamStepView::Emit(e) => seq![StreamItemView::Event(e)] + spec_stream(raws.skip(1)),
            StreamStepView::Fail(er) => seq![StreamItemView::Error(er)] + spec_stream(
                raws.skip(1),
            ),
        }
    }
}

/// Process a whole recorded sequence of raw outcomes.
pub fn process_events(raws: Vec<RawStreamEvent>) -> (out: Vec<StreamItem>)
    ensures
        item_views(out@) == spec_stream(raw_views(raws@)),
{
    let ghost s0 = raws@;
    let mut rest = raws;
    let mut out: Vec<StreamItem> = Vec::new();
    proof {
        assert(item_views(out@) =~= Seq::<StreamItemView>::empty());
        assert(item_views(out@) + spec_stream(raw_views(rest@)) =~= spec_stream(raw_views(s0)));
    }
    let mut done = false;
    while !done
        invariant
            !done ==> spec_stream(raw_views(s0)) == item_views(out@) + spec_stream(
                raw_views(rest@),
            ),
            done ==> spec_stream(raw_views(s0)) == item_views(out@),
        decreases rest@.len() * 2 + (if done {
            0int
        } else {
            1int
        }),
    {
        if rest.len() == 0 {
            proof {
                assert(raw_views(rest@).len() == 0);
                assert(item_views(out@) + spec_stream(raw_views(rest@)) =~= item_views(out@));
            }
            done = true;
        } else {
            let ghost rest_old = rest@;
            let raw = rest.remove(0);
            proof {
                assert(raw_views(rest_old)[0] == raw@);
                assert(raw_views(rest@) =~= raw_views(rest_old).skip(1));
            }
            let st = process_raw_event(raw);
            match st {
                StreamStep::Skip => {
                    proof {
                        assert(spec_stream(raw_views(rest_old)) == spec_stream(raw_views(rest@)));
                    }
                },
                StreamStep::End => {
                    proof {
                        assert(spec_stream(raw_views(rest_old))
                            =~= Seq::<StreamItemView>::empty());
                        assert(item_views(out@) + spec_stream(raw_views(rest_old)) =~= item_views(
                            out@,
                        ));
                    }
                    done = true;
                },
                StreamStep::Emit(e) => {
                    let ghost out_old = out@;
                    out.push(StreamItem::Event(e));
                    proof {
                        assert(item_views(out@) =~= item_views(out_old).push(
                            StreamItemView::Event(e@),
                        ));
                        assert(item_views(out_old) + spec_stream(raw_views(rest_old))
                            =~= item_views(out@) + spec_stream(raw_views(rest@)));
                    }
                },
                StreamStep::Fail(er) => {
                    let ghost out_old = out@;
                    let ghost erv = er@;
                    out.push(StreamItem::Error(er));
                    proof {
                        assert(item_views(out@) =~= item_views(out_old).push(
                            StreamItemView::Error(erv),
                        ));
                        assert(item_views(out_old) + spec_stream(raw_views(rest_old))
                            =~= item_views(out@) + spec_stream(raw_views(rest@)));
                    }
                },
            }
        }
    }
    out
}

/// The choice increments of one candidate that a consumer folds: the content
/// fragments for `idx`, concatenated in arrival order.
pub open spec fn spec_content_for(ds: Seq<ChoiceDeltaView>, idx: u64) -> Seq<char>
    decreases ds.len(),
{
    if ds.len() == 0 {
        Seq::empty()
    } else {
        let rest = spec_content_for(ds.skip(1), idx);
        if ds[0].index == idx {
            match ds[0].delta {
                DeltaView::Content(c) => c + rest,
                _ => rest,
            }
        } else {
            rest
        }
    }
}

/// The first role announced for `idx`, if any.
pub open spec fn spec_role_for(ds: Seq<ChoiceDeltaView>, idx: u64) -> Option<
    ChatCompletionMessageRole,
>
    decreases ds.len(),
{
    if ds.len() == 0 {
        None
    } else if ds[0].index == idx && ds[0].delta is Role {
        match ds[0].delta {
            DeltaView::Role(r) => Some(r),
            _ => None,
        }
    } else {
        spec_role_for(ds.skip(1), idx)
    }
}

/// The first finish reason reported for `idx`, if any.
pub open spec fn spec_finish_for(ds: Seq<ChoiceDeltaView>, idx: u64) -> Option<Seq<char>>
    decreases ds.len(),
{
    if ds.len() == 0 {
        None
    } else if ds[0].index == idx && ds[0].finish_reason is Some {
        ds[0].finish_reason
    } else {
        spec_finish_for(ds.skip(1), idx)
    }
}

/// All choice increments of a sequence of events, in arrival order.
pub open spec fn spec_event_deltas(es: Seq<EventView>) -> Seq<ChoiceDeltaView>
    decreases es.len(),
{
    if es.len() == 0 {
        Seq::empty()
    } else {
        es[0].choices + spec_event_deltas(es.skip(1))
    }
}

pub open spec fn event_views(es: Seq<ChatCompletionEvent>) -> Seq<EventView> {
    es.map_values(|e: ChatCompletionEvent| e@)
}

pub proof fn lemma_content_concat(a: Seq<ChoiceDeltaView>, b: Seq<ChoiceDeltaView>, idx: u64)
    ensures
        spec_content_for(a + b, idx) == spec_content_for(a, idx) + spec_content_for(b, idx),
    decreases a.len(),
{
    if a.len() == 0 {
        assert(a + b =~= b);
        assert(spec_content_for(a, idx) + spec_content_for(b, idx) =~= spec_content_for(b, idx));
    } else {
        assert((a + b)[0] == a[0]);
        assert((a + b).skip(1) =~= a.skip(1) + b);
        lemma_content_concat(a.skip(1), b, idx);
        if a[0].index == idx {
            match a[0].delta {
                DeltaView::Content(c) => {
                    assert(c + (spec_content_for(a.skip(1), idx) + spec_content_for(b, idx)) =~= (c
                        + spec_content_for(a.skip(1), idx)) + spec_content_for(b, idx));
                },
                _ => {},
            }
        }
    }
}

pub proof fn lemma_role_concat(a: Seq<ChoiceDeltaView>, b: Seq<ChoiceDeltaView>, idx: u64)
    ensures
        spec_role_for(a + b, idx) == (match spec_role_for(a, idx) {
            Some(r) => Some(r),
            None => spec_role_for(b, idx),
        }),
    decreases a.len(),
{
    if a.len() == 0 {
        assert(a + b =~= b);
    } else {
        assert((a + b)[0] == a[0]);
        assert((a + b).skip(1) =~= a.skip(1) + b);
        lemma_role_concat(a.skip(1), b, idx);
    }
}

pub proof fn lemma_finish_concat(a: Seq<ChoiceDeltaView>, b: Seq<ChoiceDeltaView>, idx: u64)
    ensures
        spec_finish_for(a + b, idx) == (match spec_finish_for(a, idx) {
            Some(f) => Some(f),
            None => spec_finish_for(b, idx),
        }),
    decreases a.len(),
{
    if a.len() == 0 {
        assert(a + b =~= b);
    } else {
        assert((a + b)[0] == a[0]);
        assert((a + b).skip(1) =~= a.skip(1) + b);
        lemma_finish_concat(a.skip(1), b, idx);
    }
}

pub proof fn lemma_event_deltas_push(es: Seq<EventView>, e: EventView)
    ensures
        spec_event_deltas(es.push(e)) == spec_event_deltas(es) + e.choices,
    decreases es.len(),
{
    if es.len() == 0 {
        assert(es.push(e)[0] == e);
        assert(es.push(e).skip(1) =~= Seq::<EventView>::empty());
        assert(spec_event_deltas(Seq::<EventView>::empty()) =~= Seq::<ChoiceDeltaView>::empty());
        assert(e.choices + Seq::<ChoiceDeltaView>::empty() =~= e.choices);
        assert(spec_event_deltas(es) + e.choices =~= e.choices);
    } else {
        assert(es.push(e)[0] == es[0]);
        assert(es.push(e).skip(1) =~= es.skip(1).push(e));
        lemma_event_deltas_push(es.skip(1), e);
        assert(es[0].choices + (spec_event_deltas(es.skip(1)) + e.choices) =~= (es[0].choices
            + spec_event_deltas(es.skip(1))) + e.choices);
    }
}

/// What one lone increment contributes to a candidate.
pub proof fn lemma_single_delta(head: ChoiceDeltaView, idx: u64)
    ensures
        spec_content_for(seq![head], idx) == (if head.index == idx {
            match head.delta {
                DeltaView::Content(c) => c,
                _ => Seq::<char>::empty(),
            }
        } else {
            Seq::<char>::empty()
        }),
        spec_role_for(seq![head], idx) == (if head.index == idx && head.delta is Role {
            match head.delta {
                DeltaView::Role(r) => Some(r),
                _ => None,
            }
        } else {
            None::<ChatCompletionMessageRole>
        }),
        spec_finish_for(seq![head], idx) == (if head.index == idx && head.finish_reason is Some {
            head.finish_reason
        } else {
            None::<Seq<char>>
        }),
{
    let one = seq![head];
    assert(one.skip(1) =~= Seq::<ChoiceDeltaView>::empty());
    assert(spec_content_for(one.skip(1), idx) =~= Seq::<char>::empty());
    assert(spec_role_for(Seq::<ChoiceDeltaView>::empty(), idx) is None);
    assert(spec_finish_for(Seq::<ChoiceDeltaView>::empty(), idx) is None);
    assert(spec_role_for(one.skip(1), idx) is None);
    assert(spec_finish_for(one.skip(1), idx) is None);
    if head.index == idx {
        match head.delta {
            DeltaView::Content(c) => {
                assert(c + Seq::<char>::empty() =~= c);
            },
            _ => {},
        }
    }
}

/// Append the characters of a string slice.
fn append_chars(dst: Vec<char>, s: &str) -> (r: Vec<char>)
    ensures
        r@ == dst@ + s@,
{
    let cv = chars_of_str(s);
    let mut d = dst;
    let ghost d0 = d@;
    let mut i: usize = 0;
    while i < cv.len()
        invariant
            0 <= i <= cv.len(),
            cv@ == s@,
            d@ == d0 + cv@.take(i as int),
        decreases cv.len() - i,
    {
        d.push(cv[i]);
        proof {
            assert(d@ =~= d0 + cv@.take(i + 1));
        }
        i = i + 1;
    }
    proof {
        assert(d0 + cv@.take(cv@.len() as int) =~= d0 + s@);
    }
    d
}

/// What a consumer has put together for one candidate.
#[derive(Clone, Debug, PartialEq)]
pub struct AssembledChoice {
    /// The role announced for the candidate, if one arrived.
    pub role: Option<ChatCompletionMessageRole>,
    /// All content fragments for the candidate, concatenated in arrival order.
    pub content: String,
    /// The first finish reason reported for the candidate, if one arrived.
    pub finish_reason: Option<String>,
}

/// Fold a sequence of decoded events into the reassembled message of the
/// candidate `index`, never touching the increments of other candidates.
pub fn assemble(events: &Vec<ChatCompletionEvent>, index: u64) -> (r: AssembledChoice)
    ensures
        ({
            let ds = spec_event_deltas(event_views(events@));
            &&& r.role == spec_role_for(ds, index)
            &&& r.content@ == spec_content_for(ds, index)
            &&& (match r.finish_reason {
                Some(f) => Some(f@),
                None => None::<Seq<char>>,
            }) == spec_finish_for(ds, index)
        }),
{
    let ghost all = event_views(events@);
    let mut content: Vec<char> = Vec::new();
    let mut role: Option<ChatCompletionMessageRole> = None;
    let mut finish: Option<String> = None;
    let mut k: usize = 0;
    proof {
        assert(all.take(0) =~= Seq::<EventView>::empty());
        assert(content@ =~= spec_content_for(spec_event_deltas(all.take(0)), index));
    }
    while k < events.len()
        invariant
            0 <= k <= events.len(),
            all == event_views(events@),
            content@ == spec_content_for(spec_event_deltas(all.take(k as int)), index),
            role == spec_role_for(spec_event_deltas(all.take(k as int)), index),
            (match finish {
                Some(f) => Some(f@),
                None => None::<Seq<char>>,
            }) == spec_finish_for(spec_event_deltas(all.take(k as int)), index),
        decreases events.len() - k,
    {
        let ghost pre = spec_event_deltas(all.take(k as int));
        let cs = &events[k].choices;
        let ghost cv = all[k as int].choices;
        proof {
            assert(all[k as int] == events@[k as int]@);
            assert(cv == cs@.map_values(|c: ChatCompletionChoiceDelta| c@));
            assert(cv.take(0) =~= Seq::<ChoiceDeltaView>::empty());
        }
        let mut j: usize = 0;
        while j < cs.len()
            invariant
                0 <= j <= cs.len(),
                cv == cs@.map_values(|c: ChatCompletionChoiceDelta| c@),
                content@ == spec_content_for(pre, index) + spec_content_for(
                    cv.take(j as int),
                    index,
                ),
                role == (match spec_role_for(pre, index) {
                    Some(r) => Some(r),
                    None => spec_role_for(cv.take(j as int), index),
                }),
                (match finish {
                    Some(f) => Some(f@),
                    None => None::<Seq<char>>,
                }) == (match spec_finish_for(pre, index) {
                    Some(f) => Some(f),
                    None => spec_finish_for(cv.take(j as int), index),
                }),
            decreases cs.len() - j,
        {
            let ghost head = cv[j as int];
            proof {
                assert(head == cs@[j as int]@);
                assert(cv.take(j + 1) =~= cv.take(j as int) + seq![head]);
                lemma_content_concat(cv.take(j as int), seq![head], index);
                lemma_role_concat(cv.take(j as int), seq![head], index);
                lemma_finish_concat(cv.take(j as int), seq![head], index);
                lemma_single_delta(head, index);
            }
            if cs[j].index == index {
                match &cs[j].delta {
                    Delta::Content { content: frag } => {
                        let ghost c_old = content@;
                        content = append_chars(content, frag.as_str());
                        proof {
                            assert(head.delta == DeltaView::Content(frag@));
                            assert(content@ =~= spec_content_for(pre, index) + (spec_content_for(
                                cv.take(j as int),
                                index,
                            ) + frag@));
                        }
                    },
                    Delta::Role { role: r } => {
                        if role.is_none() {
                            role = Some(*r);
                        }
                    },
                    Delta::EndOfStream {  } => {},
                }
                match &cs[j].finish_reason {
                    Some(f) => {
                        if finish.is_none() {
                            finish = Some(f.clone());
                        }
                    },
                    None => {},
                }
            }
            proof {
                assert(content@ =~= spec_content_for(pre, index) + spec_content_for(
                    cv.take(j + 1),
                    index,
                ));
            }
            j = j + 1;
        }
        proof {
            assert(cv.take(cs@.len() as int) =~= cv);
            assert(all.take(k + 1) =~= all.take(k as int).push(all[k as int]));
            lemma_event_deltas_push(all.take(k as int), all[k as int]);
            lemma_content_concat(pre, cv, index);
            lemma_role_concat(pre, cv, index);
            lemma_finish_concat(pre, cv, index);
        }
        k = k + 1;
    }
    proof {
        assert(all.take(events@.len() as int) =~= all);
    }
    AssembledChoice { role, content: chars_to_string(&content), finish_reason: finish }
}

/// One candidate's increments in their intended shape — a role announcement,
/// content fragments in order, and a terminal empty delta with a finish
/// reason — reassemble to exactly the concatenation of the fragments, with
/// that role and that finish reason.
pub proof fn lemma_single_candidate_reassembly(
    idx: u64,
    role: ChatCompletionMessageRole,
    frags: Seq<Seq<char>>,
    finish: Seq<char>,
)
    ensures
        ({
            let ds = seq![
                ChoiceDeltaView { index: idx, delta: DeltaView::Role(role), finish_reason: None },
            ] + frags.map_values(
                |c: Seq<char>|
                    ChoiceDeltaView { index: idx, delta: DeltaView::Content(c), finish_reason: None },
            ) + seq![
                ChoiceDeltaView {
                    index: idx,
                    delta: DeltaView::EndOfStream,
                    finish_reason: Some(finish),
                },
            ];
            &&& spec_content_for(ds, idx) == frags.flatten()
            &&& spec_role_for(ds, idx) == Some(role)
            &&& spec_finish_for(ds, idx) == Some(finish)
        }),
{
    let ann = ChoiceDeltaView { index: idx, delta: DeltaView::Role(role), finish_reason: None };
    let fin = ChoiceDeltaView {
        index: idx,
        delta: DeltaView::EndOfStream,
        finish_reason: Some(finish),
    };
    let mid = frags.map_values(
        |c: Seq<char>|
            ChoiceDeltaView { index: idx, delta: DeltaView::Content(c), finish_reason: None },
    );
    let ds = seq![ann] + mid + seq![fin];
    lemma_single_delta(ann, idx);
    lemma_single_delta(fin, idx);
    lemma_frag_map(frags, idx);
    lemma_content_concat(seq![ann], mid, idx);
    lemma_content_concat(seq![ann] + mid, seq![fin], idx);
    lemma_role_concat(seq![ann], mid, idx);
    lemma_role_concat(seq![ann] + mid, seq![fin], idx);
    lemma_finish_concat(seq![ann], mid, idx);
    lemma_finish_concat(seq![ann] + mid, seq![fin], idx);
    assert(spec_content_for(ds, idx) =~= frags.flatten());
}

/// Content-fragment increments alone carry no role and no finish reason, and
/// their content is the concatenation of the fragments.
pub proof fn lemma_frag_map(frags: Seq<Seq<char>>, idx: u64)
    ensures
        ({
            let mid = frags.map_values(
                |c: Seq<char>|
                    ChoiceDeltaView { index: idx, delta: DeltaView::Content(c), finish_reason: None },
            );
            &&& spec_content_for(mid, idx) == frags.flatten()
            &&& spec_role_for(mid, idx) is None
            &&& spec_finish_for(mid, idx) is None
        }),
    decreases frags.len(),
{
    let mid = frags.map_values(
        |c: Seq<char>|
            ChoiceDeltaView { index: idx, delta: DeltaView::Content(c), finish_reason: None },
    );
    if frags.len() == 0 {
        assert(mid.len() == 0);
        assert(frags.flatten() =~= Seq::<char>::empty());
    } else {
        assert(mid[0] == ChoiceDeltaView {
            index: idx,
            delta: DeltaView::Content(frags[0]),
            finish_reason: None,
        });
        assert(mid.skip(1) =~= frags.skip(1).map_values(
            |c: Seq<char>|
                ChoiceDeltaView { index: idx, delta: DeltaView::Content(c), finish_reason: None },
        ));
        lemma_frag_map(frags.skip(1), idx);
        assert(frags.drop_first() =~= frags.skip(1));
        assert(frags.flatten() == frags.first() + frags.drop_first().flatten());
    }
}

/// Increments of other candidates never contaminate a candidate: folding all
/// increments gives the same result as folding only those of its index.
pub proof fn lemma_index_isolation(ds: Seq<ChoiceDeltaView>, idx: u64)
    ensures
        spec_content_for(ds, idx) == spec_content_for(deltas_for_index(ds, idx), idx),
        spec_role_for(ds, idx) == spec_role_for(deltas_for_index(ds, idx), idx),
        spec_finish_for(ds, idx) == spec_finish_for(deltas_for_index(ds, idx), idx),
    decreases ds.len(),
{
    if ds.len() > 0 {
        lemma_index_isolation(ds.skip(1), idx);
        if ds[0].index == idx {
            let f = seq![ds[0]] + deltas_for_index(ds.skip(1), idx);
            assert(f[0] == ds[0]);
            assert(f.skip(1) =~= deltas_for_index(ds.skip(1), idx));
        }
    }
}

/// The increments that belong to one candidate, in order.
pub open spec fn deltas_for_index(ds: Seq<ChoiceDeltaView>, idx: u64) -> Seq<ChoiceDeltaView>
    decreases ds.len(),
{
    if ds.len() == 0 {
        Seq::empty()
    } else if ds[0].index == idx {
        seq![ds[0]] + deltas_for_index(ds.skip(1), idx)
    } else {
        deltas_for_index(ds.skip(1), idx)
    }
}

/// Whatever follows a sentinel message is absent from the produced sequence:
/// the stream ends no later than the sentinel.
pub proof fn lemma_sentinel_ends_stream(raws: Seq<RawStreamEventView>, k: int)
    requires
        0 <= k < raws.len(),
        raws[k] == RawStreamEventView::Message(spec_sentinel()),
    ensures
        spec_stream(raws) == spec_stream(raws.take(k + 1)),
    decreases k,
{
    let t = raws.take(k + 1);
    assert(t[0] == raws[0]);
    if k == 0 {
        assert(spec_step(raws[0]) is End);
    } else {
        match spec_step(raws[0]) {
            StreamStepView::End => {},
            _ => {
                assert(raws.skip(1)[k - 1] == raws[k]);
                lemma_sentinel_ends_stream(raws.skip(1), k - 1);
                assert(raws.skip(1).take(k) =~= raws.take(k + 1).skip(1));
            },
        }
    }
}

} // verus!
