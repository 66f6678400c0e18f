//! The decode loop, as a step-by-step state machine.
//!
//! One forward pass, one sampled token and one detokenizer result make one
//! [`DecodeEvent`]; the loop state decides, per event, what to emit and
//! whether generation ends. The outside work — forward passes, sampling from
//! real logits, detokenization — happens between events, so cancellation is
//! observed once per step, never mid-step.

use vstd::prelude::*;

use crate::session::LlamaSession;
use crate::stop::{
    finish_emit, flushed, matcher_wf, opt_str_view, step_spec, MatcherModel, StopMatcher,
};

verus! {

/// What one iteration of the decode loop observes.
pub enum DecodeEvent {
    /// The caller abandoned the result channel: cooperative cancellation.
    Cancelled,
    /// One decode step's outside work is done: the sampled token, and the
    /// text the detokenizer confirmed for it (`None` while a multi-byte
    /// character is still pending).
    Token { token: u32, text: Option<String> },
}

/// What one step of the loop decided.
pub struct StepOutcome {
    /// Confirmed text to hand to the caller's sink, if any.
    pub emit: Option<String>,
    /// Whether generation has ended.
    pub finished: bool,
}

/// The mathematical state of the decode loop.
#[verifier::ext_equal]
pub ghost struct DecodeModel {
    /// The stop matcher's state.
    pub matcher: MatcherModel,
    /// The token history accumulated in the session.
    pub history: Seq<u32>,
    /// The model's designated stop token.
    pub stop_token: u32,
    /// Whether generation has ended.
    pub finished: bool,
}

/// The index of the first cancellation in an event stream, or the stream's
/// length if there is none.
pub open spec fn first_cancel(events: Seq<DecodeEvent>) -> int
    decreases events.len(),
{
    if events.len() == 0 {
        0
    } else if events[0] is Cancelled {
        0
    } else {
        1 + first_cancel(events.drop_first())
    }
}

/// A cancellation-free prefix bounds `first_cancel` from below.
pub proof fn lemma_first_cancel_lower_bound(events: Seq<DecodeEvent>, i: int)
    requires
        0 <= i <= events.len(),
        forall|j: int| 0 <= j < i ==> !(#[trigger] events[j] is Cancelled),
    ensures
        first_cancel(events) >= i,
    decreases events.len(),
{
    if events.len() == 0 {
    } else if events[0] is Cancelled {
        assert(i == 0);
    } else {
        let i2: int = if i > 0 {
            i - 1
        } else {
            0
        };
        assert forall|j: int| 0 <= j < i2 implies !(#[trigger] events.drop_first()[j]
            is Cancelled) by {
            assert(events.drop_first()[j] == events[j + 1]);
            assert(!(events[j + 1] is Cancelled));
        }
        lemma_first_cancel_lower_bound(events.drop_first(), i2);
    }
}

/// One step of the decode loop on the model level: the successor state and
/// the text emitted for this step. A finished loop is inert; cancellation
/// and the stop token end generation, flushing held-back text; any other
/// token joins the history and, once its text is confirmed, runs the stop
/// matcher, which ends generation exactly when the phrase completes.
pub open spec fn decode_step_spec(m: DecodeModel, event: DecodeEvent) -> (
    DecodeModel,
    Option<Seq<char>>,
) {
    if m.finished {
        (m, Option::None)
    } else {
        match event {
            DecodeEvent::Cancelled => (
                DecodeModel {
                    matcher: flushed(m.matcher),
                    history: m.history,
                    stop_token: m.stop_token,
                    finished: true,
                },
                finish_emit(m.matcher),
            ),
            DecodeEvent::Token { token, text } => {
                if token == m.stop_token {
                    (
                        DecodeModel {
                            matcher: flushed(m.matcher),
                            history: m.history,
                            stop_token: m.stop_token,
                            finished: true,
                        },
                        finish_emit(m.matcher),
                    )
                } else {
                    match text {
                        Option::None => (
                            DecodeModel {
                                matcher: m.matcher,
                                history: m.history.push(token),
                                stop_token: m.stop_token,
                                finished: false,
                            },
                            Option::None,
                        ),
                        Option::Some(t) => {
                            let ms = step_spec(m.matcher, t@);
                            (
                                DecodeModel {
                                    matcher: ms.0,
                                    history: m.history.push(token),
                                    stop_token: m.stop_token,
                                    finished: ms.0.matched,
                                },
                                ms.1,
                            )
                        },
                    }
                }
            },
        }
    }
}

/// The decode loop run to completion over an event stream, on the model
/// level: events are consumed in order until one finishes generation or the
/// stream ends; the result is the final state, the emitted chunks and the
/// number of events consumed.
pub open spec fn run_spec(m: DecodeModel, events: Seq<DecodeEvent>) -> (
    DecodeModel,
    Seq<Seq<char>>,
    int,
)
    decreases events.len(),
{
    if events.len() == 0 {
        (m, Seq::<Seq<char>>::empty(), 0)
    } else {
        let step = decode_step_spec(m, events[0]);
        let emitted = match step.1 {
            Option::Some(c) => seq![c],
            Option::None => Seq::<Seq<char>>::empty(),
        };
        if step.0.finished {
            (step.0, emitted, 1)
        } else {
            let rest = run_spec(step.0, events.drop_first());
            (rest.0, emitted + rest.1, 1 + rest.2)
        }
    }
}

/// The views of a list of owned strings.
pub open spec fn strs_view(v: Seq<String>) -> Seq<Seq<char>> {
    v.map_values(|s: String| s@)
}

/// The text one consumed event contributes to the output stream: a non-stop
/// token's confirmed text; nothing for pending text, the stop token or a
/// cancellation.
pub open spec fn event_text(e: DecodeEvent, stop_token: u32) -> Seq<Seq<char>> {
    match e {
        DecodeEvent::Cancelled => Seq::empty(),
        DecodeEvent::Token { token, text } => {
            if token == stop_token {
                Seq::<Seq<char>>::empty()
            } else {
                match text {
                    Option::Some(t) => seq![t@],
                    Option::None => Seq::<Seq<char>>::empty(),
                }
            }
        },
    }
}

/// The confirmed texts of the first `n` events.
pub open spec fn event_texts(events: Seq<DecodeEvent>, n: int, stop_token: u32) -> Seq<Seq<char>>
    decreases events.len(),
{
    if n <= 0 || events.len() == 0 {
        Seq::empty()
    } else {
        event_text(events[0], stop_token) + event_texts(events.drop_first(), n - 1, stop_token)
    }
}

/// Without a stop phrase the decode loop is lossless over any event stream:
/// the concatenation of everything it emits equals the concatenation of the
/// confirmed text of every event it consumes — nothing is dropped, nothing
/// is duplicated, and the stop token itself is never emitted.
pub proof fn lemma_run_lossless_without_stop_phrase(m: DecodeModel, events: Seq<DecodeEvent>)
    requires
        m.matcher == crate::stop::matcher_init(Option::None),
        !m.finished,
    ensures
        run_spec(m, events).1.flatten() == event_texts(
            events,
            run_spec(m, events).2,
            m.stop_token,
        ).flatten(),
    decreases events.len(),
{
    let empty_texts = Seq::<Seq<char>>::empty();
    assert(empty_texts.flatten() =~= Seq::<char>::empty());
    if events.len() == 0 {
    } else {
        let step = decode_step_spec(m, events[0]);
        let et = event_text(events[0], m.stop_token);
        if step.0.finished {
            // Cancellation or the stop token: with no phrase nothing is
            // held back, so nothing is flushed and nothing was confirmed.
            assert(finish_emit(m.matcher) is None);
            assert(run_spec(m, events).1 =~= empty_texts);
            assert(et =~= empty_texts);
            assert(event_texts(events.drop_first(), 0, m.stop_token) =~= empty_texts);
            assert(event_texts(events, 1, m.stop_token) =~= empty_texts);
        } else {
            let rest = run_spec(step.0, events.drop_first());
            assert(step.0.matcher == m.matcher);
            assert(step.0.stop_token == m.stop_token);
            lemma_run_spec_steps_nonneg(step.0, events.drop_first());
            lemma_run_lossless_without_stop_phrase(step.0, events.drop_first());
            let emitted = match step.1 {
                Option::Some(c) => seq![c],
                Option::None => empty_texts,
            };
            assert(run_spec(m, events).1 == emitted + rest.1);
            assert(event_texts(events, run_spec(m, events).2, m.stop_token) == et + event_texts(
                events.drop_first(),
                rest.2,
                m.stop_token,
            ));
            lemma_flatten_prepend(emitted, rest.1);
            lemma_flatten_prepend(et, event_texts(events.drop_first(), rest.2, m.stop_token));
            match step.1 {
                Option::Some(c) => {
                    assert(seq![c].drop_first() =~= empty_texts);
                    assert(emitted.flatten() == c + seq![c].drop_first().flatten());
                    assert(emitted.flatten() =~= c);
                    assert(et == seq![c]);
                },
                Option::None => {
                    // Either the text is still pending, or the confirmed
                    // text was empty; both contribute nothing.
                    assert(emitted.flatten() =~= Seq::<char>::empty());
                    if et.len() > 0 {
                        assert(et[0].len() == 0);
                        assert(et.drop_first() =~= empty_texts);
                        assert(et.flatten() == et[0] + et.drop_first().flatten());
                        assert(et.flatten() =~= Seq::<char>::empty());
                    } else {
                        assert(et =~= empty_texts);
                    }
                },
            }
            assert(run_spec(m, events).1.flatten() =~= event_texts(
                events,
                run_spec(m, events).2,
                m.stop_token,
            ).flatten());
        }
    }
}

/// A run consumes a non-negative number of events.
proof fn lemma_run_spec_steps_nonneg(m: DecodeModel, events: Seq<DecodeEvent>)
    ensures
        run_spec(m, events).2 >= 0,
    decreases events.len(),
{
    if events.len() > 0 {
        let step = decode_step_spec(m, events[0]);
        if !step.0.finished {
            lemma_run_spec_steps_nonneg(step.0, events.drop_first());
        }
    }
}

/// Flattening distributes over prepending a block of chunks.
proof fn lemma_flatten_prepend(head: Seq<Seq<char>>, tail: Seq<Seq<char>>)
    ensures
        (head + tail).flatten() == head.flatten() + tail.flatten(),
    decreases head.len(),
{
    if head.len() == 0 {
        assert(head + tail =~= tail);
        assert(head.flatten() =~= Seq::<char>::empty());
        assert(head.flatten() + tail.flatten() =~= tail.flatten());
    } else {
        assert((head + tail).drop_first() =~= head.drop_first() + tail);
        lemma_flatten_prepend(head.drop_first(), tail);
        assert((head + tail).flatten() == (head + tail)[0] + (head + tail).drop_first().flatten());
        assert((head + tail).flatten() =~= head.flatten() + tail.flatten());
    }
}

/// Runs the per-token decisions of one generation request: stop-token
/// detection, stop-phrase matching and cooperative cancellation, while the
/// session records every accepted token.
pub struct DecodeLoop {
    matcher: StopMatcher,
    session: LlamaSession,
    stop_token: u32,
    finished: bool,
}

impl View for DecodeLoop {
    type V = DecodeModel;

    closed spec fn view(&self) -> DecodeModel {
        DecodeModel {
            matcher: self.matcher@,
            history: self.session@,
            stop_token: self.stop_token,
            finished: self.finished,
        }
    }
}

impl DecodeLoop {
    /// Well-formedness: the matcher state is well formed.
    pub open spec fn wf(&self) -> bool {
        matcher_wf(self@.matcher)
    }

    /// Start a request: the session to extend, the stop phrase to watch for
    /// and the model's stop token.
    pub fn new(session: LlamaSession, stop_phrase: Option<String>, stop_token: u32) -> (d:
        DecodeLoop)
        ensures
            d.wf(),
            d@.matcher == crate::stop::matcher_init(opt_str_view(stop_phrase)),
            d@.history == session@,
            d@.stop_token == stop_token,
            !d@.finished,
    {
        DecodeLoop { matcher: StopMatcher::new(stop_phrase), session, stop_token, finished: false }
    }

    /// Record one prompt token: bookkeeping only, nothing is emitted.
    pub fn feed_prompt_token(&mut self, token: u32)
        requires
            old(self).wf(),
        ensures
            final(self).wf(),
            final(self)@.history == old(self)@.history.push(token),
            final(self)@.matcher == old(self)@.matcher,
            final(self)@.stop_token == old(self)@.stop_token,
            final(self)@.finished == old(self)@.finished,
    {
        self.session.push_token(token);
    }

    /// Whether generation has ended.
    pub fn is_finished(&self) -> (r: bool)
        ensures
            r == self@.finished,
    {
        self.finished
    }

    /// Hand the session back when the request is over.
    pub fn into_session(self) -> (s: LlamaSession)
        ensures
            s@ == self@.history,
    {
        self.session
    }

    /// One iteration of the decode loop.
    pub fn step(&mut self, event: &DecodeEvent) -> (out: StepOutcome)
        requires
            old(self).wf(),
        ensures
            final(self).wf(),
            final(self)@ == decode_step_spec(old(self)@, *event).0,
            opt_str_view(out.emit) == decode_step_spec(old(self)@, *event).1,
            out.finished == final(self)@.finished,
    {
        if self.finished {
            return StepOutcome { emit: Option::None, finished: true };
        }
        match event {
            DecodeEvent::Cancelled => {
                let emit = self.matcher.finish();
                self.finished = true;
                StepOutcome { emit, finished: true }
            },
            DecodeEvent::Token { token, text } => {
                if *token == self.stop_token {
                    let emit = self.matcher.finish();
                    self.finished = true;
                    return StepOutcome { emit, finished: true };
                }
                self.session.push_token(*token);
                match text {
                    Option::None => StepOutcome { emit: Option::None, finished: false },
                    Option::Some(t) => {
                        let emit = self.matcher.push(t.as_str());
                        let matched = self.matcher.is_matched();
                        self.finished = matched;
                        StepOutcome { emit, finished: matched }
                    },
                }
            },
        }
    }

    /// Drive the loop over a whole event stream, collecting every emitted
    /// chunk, until one event finishes generation or the stream ends. At
    /// most one event at or past the first cancellation is ever consumed.
    pub fn run(&mut self, events: &Vec<DecodeEvent>) -> (r: (Vec<String>, usize))
        requires
            old(self).wf(),
        ensures
            final(self).wf(),
            final(self)@ == run_spec(old(self)@, events@).0,
            strs_view(r.0@) == run_spec(old(self)@, events@).1,
            r.1 == run_spec(old(self)@, events@).2,
            r.1 <= events@.len(),
            r.1 <= first_cancel(events@) + 1,
    {
        let mut outputs: Vec<String> = Vec::new();
        let mut i: usize = 0;
        let n = events.len();
        proof {
            assert(events@.skip(0) =~= events@);
            assert(strs_view(outputs@) =~= Seq::<Seq<char>>::empty());
        }
        while i < n
            invariant
                self.wf(),
                n == events@.len(),
                i <= n,
                forall|j: int| 0 <= j < i ==> !(#[trigger] events@[j] is Cancelled),
                run_spec(old(self)@, events@).0 == run_spec(self@, events@.skip(i as int)).0,
                run_spec(old(self)@, events@).1 == strs_view(outputs@) + run_spec(
                    self@,
                    events@.skip(i as int),
                ).1,
                run_spec(old(self)@, events@).2 == i + run_spec(self@, events@.skip(i as int)).2,
            decreases n - i,
        {
            let ghost prev_outputs = strs_view(outputs@);
            let ghost prev_state = self@;
            let ghost rem = events@.skip(i as int);
            let ev = &events[i];
            let out = self.step(ev);
            i += 1;
            let ghost emit_view = crate::stop::opt_str_view(out.emit);
            if let Option::Some(chunk) = out.emit {
                outputs.push(chunk);
            }
            proof {
                assert(rem[0] == events@[i - 1]);
                assert(rem.drop_first() =~= events@.skip(i as int));
                let step = decode_step_spec(prev_state, events@[i - 1]);
                assert(self@ == step.0);
                let emitted = match step.1 {
                    Option::Some(c) => seq![c],
                    Option::None => Seq::<Seq<char>>::empty(),
                };
                assert(strs_view(outputs@) =~= prev_outputs + emitted);
                if out.finished {
                    assert(run_spec(prev_state, rem) == (step.0, emitted, 1int));
                } else {
                    let rest = run_spec(step.0, rem.drop_first());
                    assert(run_spec(prev_state, rem) == (rest.0, emitted + rest.1, 1int + rest.2));
                    assert(prev_outputs + (emitted + rest.1) =~= strs_view(outputs@) + rest.1);
                }
            }
            if out.finished {
                proof {
                    lemma_first_cancel_lower_bound(events@, i - 1);
                    assert(run_spec(old(self)@, events@).1 =~= strs_view(outputs@));
                }
                return (outputs, i);
            }
            proof {
                assert(!(events@[i - 1] is Cancelled));
            }
        }
        proof {
            lemma_first_cancel_lower_bound(events@, i as int);
            assert(events@.skip(n as int) =~= Seq::<DecodeEvent>::empty());
            assert(run_spec(old(self)@, events@).1 =~= strs_view(outputs@));
        }
        (outputs, i)
    }
}

/// What one generation request carries, apart from the sampler that the
/// caller owns: prompt, optional stop phrase and the session to extend.
pub struct InferenceSettings {
    /// The prompt text.
    pub prompt: String,
    /// The phrase on which generation should stop, if any.
    pub stop_on: Option<String>,
    /// The session the request runs against.
    pub session: LlamaSession,
}

impl InferenceSettings {
    /// Settings with no stop phrase.
    pub fn new(prompt: &str, session: LlamaSession) -> (s: InferenceSettings)
        ensures
            s.prompt@ == prompt@,
            s.stop_on is None,
            s.session@ == session@,
    {
        InferenceSettings { prompt: prompt.to_owned(), stop_on: Option::None, session }
    }

    /// The same settings with a stop phrase.
    pub fn with_stop_on(self, stop_on: Option<String>) -> (s: InferenceSettings)
        ensures
            s.prompt@ == self.prompt@,
            crate::stop::opt_str_view(s.stop_on) == crate::stop::opt_str_view(stop_on),
            s.session@ == self.session@,
    {
        InferenceSettings { prompt: self.prompt, stop_on, session: self.session }
    }
}

} // verus!
