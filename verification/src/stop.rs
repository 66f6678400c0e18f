//! Stop-phrase detection over a stream of decoded text chunks.
//!
//! A [`StopMatcher`] receives confirmed text one chunk at a time and decides,
//! under ASCII case folding, which part of it is safe to emit and which part
//! must be held back because it may still grow into the configured stop
//! phrase. Held-back text is either discarded (the phrase completed) or
//! flushed verbatim when the stream ends.

use vstd::prelude::*;

use crate::fold::{
    contains_fold, fold_seq, fold_starts_with, lemma_fold_seq_add, lemma_fold_seq_skip,
    lemma_fold_seq_take,
};

verus! {

/// The mathematical state of a stop matcher.
#[verifier::ext_equal]
pub ghost struct MatcherModel {
    /// The configured stop phrase, if any.
    pub phrase: Option<Seq<char>>,
    /// Decoded text held back because, folded, it is a prefix of the folded
    /// phrase.
    pub buffer: Seq<char>,
    /// Whether the stop phrase has been fully matched.
    pub matched: bool,
}

/// Result of scanning a folded text for the first position that either
/// completes the outstanding part of the stop phrase or begins it.
pub ghost enum ScanOutcome {
    /// The text at this position contains the whole outstanding part.
    FullMatch { at: int },
    /// The text from this position to its end is a proper prefix of the
    /// outstanding part.
    PartialMatch { at: int },
    /// No position matches.
    NoMatch,
}

/// Whether position `i` of `ftext` triggers a full or partial match of `rem`.
pub open spec fn scan_hit(ftext: Seq<u32>, rem: Seq<u32>, i: int) -> bool {
    rem.is_prefix_of(ftext.skip(i)) || ftext.skip(i).is_prefix_of(rem)
}

/// The earliest position at or after `i` where `rem` matches, scanning left
/// to right; full matches take precedence over partial ones at one position.
pub open spec fn scan_from(ftext: Seq<u32>, rem: Seq<u32>, i: int) -> ScanOutcome
    decreases ftext.len() - i,
    when 0 <= i <= ftext.len()
{
    if i >= ftext.len() {
        ScanOutcome::NoMatch
    } else if rem.is_prefix_of(ftext.skip(i)) {
        ScanOutcome::FullMatch { at: i }
    } else if ftext.skip(i).is_prefix_of(rem) {
        ScanOutcome::PartialMatch { at: i }
    } else {
        scan_from(ftext, rem, i + 1)
    }
}

/// Well-formedness of a matcher state: the held-back text never exceeds the
/// phrase, folds to a prefix of the folded phrase, and is dropped once the
/// phrase has matched.
pub open spec fn matcher_wf(m: MatcherModel) -> bool {
    match m.phrase {
        Option::None => m.buffer.len() == 0,
        Option::Some(p) => {
            &&& m.buffer.len() <= p.len()
            &&& (m.matched ==> m.buffer.len() == 0)
            &&& (!m.matched ==> fold_seq(m.buffer) == fold_seq(p).take(m.buffer.len() as int))
            &&& (!m.matched && m.buffer.len() > 0 ==> m.buffer.len() < p.len())
        },
    }
}

/// The state of a freshly created matcher.
pub open spec fn matcher_init(phrase: Option<Seq<char>>) -> MatcherModel {
    MatcherModel { phrase, buffer: Seq::empty(), matched: false }
}

/// One step of the matcher on a newly decoded chunk: the successor state and
/// the text emitted for this step.
pub open spec fn step_spec(m: MatcherModel, text: Seq<char>) -> (MatcherModel, Option<Seq<char>>) {
    if m.matched {
        (m, Option::None)
    } else {
        match m.phrase {
            Option::None => (
                m,
                if text.len() > 0 {
                    Option::Some(text)
                } else {
                    Option::None
                },
            ),
            Option::Some(p) => {
                let rem = fold_seq(p).skip(m.buffer.len() as int);
                if rem.len() == 0 {
                    (MatcherModel { phrase: m.phrase, buffer: Seq::empty(), matched: true }, Option::None)
                } else {
                    match scan_from(fold_seq(text), rem, 0) {
                        ScanOutcome::FullMatch { at } => (
                            MatcherModel { phrase: m.phrase, buffer: Seq::empty(), matched: true },
                            if at > 0 {
                                Option::Some(text.take(at))
                            } else {
                                Option::None
                            },
                        ),
                        ScanOutcome::PartialMatch { at } => (
                            MatcherModel {
                                phrase: m.phrase,
                                buffer: m.buffer + text.skip(at),
                                matched: false,
                            },
                            if at > 0 {
                                Option::Some(text.take(at))
                            } else {
                                Option::None
                            },
                        ),
                        ScanOutcome::NoMatch => (
                            MatcherModel { phrase: m.phrase, buffer: Seq::empty(), matched: false },
                            if m.buffer.len() + text.len() > 0 {
                                Option::Some(m.buffer + text)
                            } else {
                                Option::None
                            },
                        ),
                    }
                }
            },
        }
    }
}

/// The matcher state once the stream has ended and held-back text has been
/// flushed or discarded.
pub open spec fn flushed(m: MatcherModel) -> MatcherModel {
    MatcherModel { phrase: m.phrase, buffer: Seq::empty(), matched: m.matched }
}

/// What the matcher emits when the stream ends: held-back text that never
/// completed the phrase is flushed verbatim.
pub open spec fn finish_emit(m: MatcherModel) -> Option<Seq<char>> {
    if !m.matched && m.buffer.len() > 0 {
        Option::Some(m.buffer)
    } else {
        Option::None
    }
}

/// The view of an optional owned string.
pub open spec fn opt_str_view(o: Option<String>) -> Option<Seq<char>> {
    match o {
        Option::Some(s) => Option::Some(s@),
        Option::None => Option::None,
    }
}

/// Facts about the scan result: a reported position really matches, and no
/// earlier position does.
pub proof fn lemma_scan_from_facts(ftext: Seq<u32>, rem: Seq<u32>, i: int)
    requires
        0 <= i <= ftext.len(),
        rem.len() > 0,
    ensures
        match scan_from(ftext, rem, i) {
            ScanOutcome::FullMatch { at } => {
                &&& i <= at < ftext.len()
                &&& rem.is_prefix_of(ftext.skip(at))
                &&& forall|j: int| i <= j < at ==> !scan_hit(ftext, rem, j)
            },
            ScanOutcome::PartialMatch { at } => {
                &&& i <= at < ftext.len()
                &&& ftext.skip(at).is_prefix_of(rem)
                &&& !rem.is_prefix_of(ftext.skip(at))
                &&& ftext.len() - at < rem.len()
                &&& forall|j: int| i <= j < at ==> !scan_hit(ftext, rem, j)
            },
            ScanOutcome::NoMatch => forall|j: int|
                i <= j < ftext.len() ==> !scan_hit(ftext, rem, j),
        },
    decreases ftext.len() - i,
{
    if i >= ftext.len() {
    } else if rem.is_prefix_of(ftext.skip(i)) {
    } else if ftext.skip(i).is_prefix_of(rem) {
        let s = ftext.skip(i);
        if s.len() == rem.len() {
            assert(rem =~= s.subrange(0, rem.len() as int));
            assert(false);
        }
    } else {
        lemma_scan_from_facts(ftext, rem, i + 1);
        assert(!scan_hit(ftext, rem, i));
    }
}

/// If no position before `i` hits, the scan from the start agrees with the
/// scan from `i`.
pub proof fn lemma_scan_skip_misses(ftext: Seq<u32>, rem: Seq<u32>, i: int)
    requires
        0 <= i <= ftext.len(),
        forall|j: int| 0 <= j < i ==> !scan_hit(ftext, rem, j),
    ensures
        scan_from(ftext, rem, 0) == scan_from(ftext, rem, i),
    decreases i,
{
    if i > 0 {
        lemma_scan_skip_misses(ftext, rem, i - 1);
        assert(!scan_hit(ftext, rem, i - 1));
    }
}

/// The matcher state after feeding a whole sequence of decoded chunks.
pub open spec fn run_steps(m: MatcherModel, texts: Seq<Seq<char>>) -> MatcherModel
    decreases texts.len(),
{
    if texts.len() == 0 {
        m
    } else {
        run_steps(step_spec(m, texts[0]).0, texts.drop_first())
    }
}

/// Everything the matcher emits while feeding a whole sequence of decoded
/// chunks.
pub open spec fn run_emits(m: MatcherModel, texts: Seq<Seq<char>>) -> Seq<Seq<char>>
    decreases texts.len(),
{
    if texts.len() == 0 {
        Seq::empty()
    } else {
        let step = step_spec(m, texts[0]);
        (match step.1 {
            Option::Some(c) => seq![c],
            Option::None => Seq::<Seq<char>>::empty(),
        }) + run_emits(step.0, texts.drop_first())
    }
}

/// Without a stop phrase nothing is ever held back or dropped: the
/// concatenation of all emitted chunks is exactly the concatenation of all
/// decoded chunks.
pub proof fn lemma_no_stop_phrase_lossless(texts: Seq<Seq<char>>)
    ensures
        run_emits(matcher_init(Option::None), texts).flatten() == texts.flatten(),
    decreases texts.len(),
{
    let m = matcher_init(Option::None);
    if texts.len() == 0 {
    } else {
        let step = step_spec(m, texts[0]);
        assert(step.0 == m);
        lemma_no_stop_phrase_lossless(texts.drop_first());
        let rest = run_emits(m, texts.drop_first());
        assert(texts.flatten() == texts[0] + texts.drop_first().flatten());
        if texts[0].len() == 0 {
            assert(run_emits(m, texts) =~= rest);
            assert(texts.flatten() =~= texts.drop_first().flatten());
        } else {
            assert(run_emits(m, texts) =~= seq![texts[0]] + rest);
            assert((seq![texts[0]] + rest).flatten() == (seq![texts[0]] + rest)[0] + (seq![
                texts[0],
            ] + rest).drop_first().flatten());
            assert((seq![texts[0]] + rest).drop_first() =~= rest);
            assert(run_emits(m, texts).flatten() =~= texts.flatten());
        }
    }
}

/// Once the stop phrase has matched, the matcher is inert: no further chunk
/// and no final flush is ever emitted.
pub proof fn lemma_matched_is_terminal(m: MatcherModel, text: Seq<char>)
    requires
        m.matched,
    ensures
        step_spec(m, text).0 == m,
        step_spec(m, text).1 is None,
        finish_emit(m) is None,
{
}

/// The held-back text never exceeds the configured stop phrase.
pub proof fn lemma_stop_buffer_bounded(m: MatcherModel)
    requires
        matcher_wf(m),
        m.phrase is Some,
    ensures
        m.buffer.len() <= m.phrase.unwrap().len(),
{
}

/// No chunk emitted by a single matcher step contains the stop phrase, under
/// ASCII case folding.
pub proof fn lemma_emitted_chunk_avoids_stop_phrase(m: MatcherModel, text: Seq<char>)
    requires
        matcher_wf(m),
        m.phrase is Some,
        step_spec(m, text).1 is Some,
    ensures
        !contains_fold(step_spec(m, text).1.unwrap(), m.phrase.unwrap()),
{
    let p = m.phrase.unwrap();
    let e = step_spec(m, text).1.unwrap();
    let fp = fold_seq(p);
    let fe = fold_seq(e);
    let ft = fold_seq(text);
    let plen = p.len() as int;
    let bl = m.buffer.len() as int;
    let tlen = text.len() as int;
    assert(!m.matched);
    let rem = fp.skip(bl);
    assert(rem.len() > 0);
    lemma_scan_from_facts(ft, rem, 0);
    if contains_fold(e, p) {
        let j = choose|j: int|
            0 <= j && j + p.len() <= e.len() && #[trigger] fold_seq(e).subrange(
                j,
                j + p.len() as int,
            ) == fold_seq(p);
        match scan_from(ft, rem, 0) {
            ScanOutcome::FullMatch { at } => {
                assert(e == text.take(at));
                lemma_fold_seq_take(text, at);
                let h = j + bl;
                assert forall|k: int| 0 <= k < rem.len() implies ft.skip(h)[k] == rem[k] by {
                    assert(fe[j + bl + k] == fp[bl + k]);
                    assert(fe[j + bl + k] == ft[j + bl + k]);
                }
                assert(rem =~= ft.skip(h).subrange(0, rem.len() as int));
                assert(scan_hit(ft, rem, h));
                assert(false);
            },
            ScanOutcome::PartialMatch { at } => {
                assert(e == text.take(at));
                lemma_fold_seq_take(text, at);
                let h = j + bl;
                assert forall|k: int| 0 <= k < rem.len() implies ft.skip(h)[k] == rem[k] by {
                    assert(fe[j + bl + k] == fp[bl + k]);
                    assert(fe[j + bl + k] == ft[j + bl + k]);
                }
                assert(rem =~= ft.skip(h).subrange(0, rem.len() as int));
                assert(scan_hit(ft, rem, h));
                assert(false);
            },
            ScanOutcome::NoMatch => {
                assert(e == m.buffer + text);
                lemma_fold_seq_add(m.buffer, text);
                assert(fe == fp.take(bl) + ft);
                assert forall|k: int| 0 <= k < rem.len() implies ft.skip(j)[k] == rem[k] by {
                    assert(fe[j + bl + k] == fp[bl + k]);
                    assert(fe[j + bl + k] == ft[j + k]);
                }
                assert(rem =~= ft.skip(j).subrange(0, rem.len() as int));
                assert(scan_hit(ft, rem, j));
                assert(false);
            },
        }
    }
}

/// Streams confirmed text while holding back any suffix that could still
/// become the configured stop phrase.
pub struct StopMatcher {
    phrase: Option<String>,
    buffer: String,
    matched: bool,
}

impl View for StopMatcher {
    type V = MatcherModel;

    closed spec fn view(&self) -> MatcherModel {
        MatcherModel {
            phrase: match self.phrase {
                Option::Some(p) => Option::Some(p@),
                Option::None => Option::None,
            },
            buffer: self.buffer@,
            matched: self.matched,
        }
    }
}

impl StopMatcher {
    /// Create a matcher for the given stop phrase; with `None`, every chunk
    /// passes through unchanged.
    pub fn new(stop_phrase: Option<String>) -> (m: StopMatcher)
        ensures
            m@ == matcher_init(opt_str_view(stop_phrase)),
            matcher_wf(m@),
    {
        let m = StopMatcher { phrase: stop_phrase, buffer: String::new(), matched: false };
        proof {
            assert(m@ =~= matcher_init(opt_str_view(m.phrase)));
            match m@.phrase {
                Option::Some(p) => {
                    assert(fold_seq(m@.buffer) =~= fold_seq(p).take(0));
                },
                Option::None => {},
            }
        }
        m
    }

    /// Whether the stop phrase has been fully matched.
    pub fn is_matched(&self) -> (r: bool)
        ensures
            r == self@.matched,
    {
        self.matched
    }

    /// Feed one newly decoded chunk; the returned text, if any, is confirmed
    /// output for this step.
    pub fn push(&mut self, text: &str) -> (emit: Option<String>)
        requires
            matcher_wf(old(self)@),
        ensures
            matcher_wf(final(self)@),
            final(self)@ == step_spec(old(self)@, text@).0,
            opt_str_view(emit) == step_spec(old(self)@, text@).1,
    {
        if self.matched {
            return Option::None;
        }
        let text_len = text.unicode_len();
        match &self.phrase {
            Option::None => {
                if text_len == 0 {
                    Option::None
                } else {
                    Option::Some(text.to_owned())
                }
            },
            Option::Some(p) => {
                let ghost pseq = p@;
                let p_len = p.as_str().unicode_len();
                let b_len = self.buffer.as_str().unicode_len();
                let ghost ft = fold_seq(text@);
                let ghost rem = fold_seq(pseq).skip(b_len as int);
                if b_len == p_len {
                    // The held-back text alone already folds to the whole
                    // phrase.
                    self.buffer = String::new();
                    self.matched = true;
                    proof {
                        assert(self@ =~= step_spec(old(self)@, text@).0);
                    }
                    return Option::None;
                }
                assert(rem.len() == p_len - b_len > 0);
                let mut i: usize = 0;
                while i < text_len
                    invariant
                        matcher_wf(old(self)@),
                        self == old(self),
                        !self.matched,
                        self.phrase matches Option::Some(pp) && pp@ == pseq,
                        p@ == pseq,
                        b_len == self.buffer@.len(),
                        p_len == pseq.len(),
                        b_len < p_len,
                        text_len == text@.len(),
                        i <= text_len,
                        ft == fold_seq(text@),
                        rem == fold_seq(pseq).skip(b_len as int),
                        forall|j: int| 0 <= j < i ==> !scan_hit(ft, rem, j),
                    decreases text_len - i,
                {
                    let full = fold_starts_with(text, i, p.as_str(), b_len);
                    proof {
                        lemma_fold_seq_skip(text@, i as int);
                        lemma_fold_seq_skip(pseq, b_len as int);
                    }
                    if full {
                        // The outstanding part of the phrase appears here:
                        // the phrase is complete. Everything before this
                        // position is confirmed output; the rest is
                        // discarded.
                        let emit = if i > 0 {
                            Option::Some(text.substring_char(0, i).to_owned())
                        } else {
                            Option::None
                        };
                        self.buffer = String::new();
                        self.matched = true;
                        proof {
                            lemma_scan_skip_misses(ft, rem, i as int);
                            assert(scan_from(ft, rem, 0) == ScanOutcome::FullMatch { at: i as int });
                            assert(self@ =~= step_spec(old(self)@, text@).0);
                            assert(text@.subrange(0, i as int) =~= text@.take(i as int));
                        }
                        return emit;
                    }
                    let partial = fold_starts_with(p.as_str(), b_len, text, i);
                    if partial {
                        // This suffix folds to a prefix of the outstanding
                        // part: hold it back, emit what precedes it.
                        let emit = if i > 0 {
                            Option::Some(text.substring_char(0, i).to_owned())
                        } else {
                            Option::None
                        };
                        let tail = text.substring_char(i, text_len);
                        self.buffer.append(tail);
                        proof {
                            lemma_scan_skip_misses(ft, rem, i as int);
                            assert(scan_from(ft, rem, 0) == ScanOutcome::PartialMatch {
                                at: i as int,
                            });
                            lemma_scan_from_facts(ft, rem, 0);
                            assert(text@.subrange(0, i as int) =~= text@.take(i as int));
                            assert(text@.subrange(i as int, text_len as int) =~= text@.skip(
                                i as int,
                            ));
                            // The new buffer still folds to a prefix of the
                            // folded phrase.
                            lemma_fold_seq_add(old(self)@.buffer, text@.skip(i as int));
                            let bl = b_len as int;
                            let tl = (text_len - i) as int;
                            assert(fold_seq(text@.skip(i as int)) =~= rem.take(tl));
                            assert(fold_seq(old(self)@.buffer) + rem.take(tl) =~= fold_seq(
                                pseq,
                            ).take(bl + tl));
                            assert(self@ =~= step_spec(old(self)@, text@).0);
                        }
                        return emit;
                    }
                    proof {
                        assert(!scan_hit(ft, rem, i as int));
                    }
                    i += 1;
                }
                // No position matches: everything held back is disproven and
                // flows out together with the whole chunk.
                proof {
                    lemma_scan_skip_misses(ft, rem, text_len as int);
                    assert(scan_from(ft, rem, 0) == ScanOutcome::NoMatch);
                }
                let emit = if b_len == 0 && text_len == 0 {
                    Option::None
                } else {
                    let mut e = self.buffer.clone();
                    e.append(text);
                    Option::Some(e)
                };
                self.buffer = String::new();
                proof {
                    assert(self@ =~= step_spec(old(self)@, text@).0);
                    assert(fold_seq(self@.buffer) =~= fold_seq(pseq).take(0));
                }
                emit
            },
        }
    }

    /// End the stream: text still held back (the phrase never completed) is
    /// flushed verbatim.
    pub fn finish(&mut self) -> (emit: Option<String>)
        requires
            matcher_wf(old(self)@),
        ensures
            matcher_wf(final(self)@),
            final(self)@ == flushed(old(self)@),
            opt_str_view(emit) == finish_emit(old(self)@),
    {
        if self.matched {
            proof {
                assert(self@ =~= flushed(self@));
            }
            return Option::None;
        }
        let b_len = self.buffer.as_str().unicode_len();
        if b_len == 0 {
            proof {
                assert(self@ =~= flushed(self@));
            }
            return Option::None;
        }
        let e = self.buffer.clone();
        self.buffer = String::new();
        proof {
            match self@.phrase {
                Option::Some(p) => {
                    assert(fold_seq(self@.buffer) =~= fold_seq(p).take(0));
                },
                Option::None => {},
            }
        }
        Option::Some(e)
    }
}

} // verus!
