//! Token sampling over integer-scored candidates.
//!
//! A forward pass hands back one score per vocabulary entry; before sampling,
//! the candidates are cut down to the [`TOP_K`] best as a bounded-cost
//! approximation. Scores are integers — for instance fixed-point scaled
//! logits — so that every selection rule here is exact.

use vstd::prelude::*;

use crate::error::GenerationError;

verus! {

/// One vocabulary entry with its integer score.
#[derive(Clone, Copy, Debug, PartialEq, Eq, Structural)]
pub struct ScoredToken {
    /// The token id.
    pub token: u32,
    /// The entry's score; higher is better.
    pub score: i64,
}

/// How many of the best-scored entries sampling considers.
pub const TOP_K: usize = 512;

/// Scores never increase along the sequence.
pub open spec fn sorted_desc(s: Seq<ScoredToken>) -> bool {
    forall|i: int, j: int| 0 <= i < j < s.len() ==> s[i].score >= s[j].score
}

/// The index of the first entry with the maximum score.
pub open spec fn first_max_index(s: Seq<ScoredToken>) -> int
    decreases s.len(),
{
    if s.len() <= 1 {
        0
    } else {
        let r = first_max_index(s.drop_last());
        if s.last().score > s[r].score {
            s.len() - 1
        } else {
            r
        }
    }
}

/// `first_max_index` really picks the first maximum.
pub proof fn lemma_first_max_index(s: Seq<ScoredToken>)
    requires
        s.len() > 0,
    ensures
        0 <= first_max_index(s) < s.len(),
        forall|j: int| 0 <= j < s.len() ==> (#[trigger] s[j]).score <= s[first_max_index(s)].score,
        forall|j: int|
            0 <= j < first_max_index(s) ==> (#[trigger] s[j]).score < s[first_max_index(s)].score,
    decreases s.len(),
{
    if s.len() > 1 {
        let d = s.drop_last();
        lemma_first_max_index(d);
        let r = first_max_index(d);
        let m = first_max_index(s);
        assert forall|j: int| 0 <= j < s.len() implies (#[trigger] s[j]).score <= s[m].score by {
            if j < s.len() - 1 {
                assert(s[j] == d[j]);
                assert(d[j].score <= d[r].score);
                assert(s[r] == d[r]);
            }
        }
        assert forall|j: int| 0 <= j < m implies (#[trigger] s[j]).score < s[m].score by {
            assert(s[j] == d[j]);
            if s.last().score > s[r].score {
                assert(d[j].score <= d[r].score);
            } else {
                assert(d[j].score < d[r].score);
            }
        }
    }
}

/// The candidates that a constraint oracle accepts, in their original order.
pub open spec fn accepted(cands: Seq<ScoredToken>, allowed: Seq<u32>) -> Seq<ScoredToken> {
    cands.filter(|c: ScoredToken| allowed.contains(c.token))
}

/// Sort the candidates by score, best first.
pub fn sort_desc(cands: &Vec<ScoredToken>) -> (r: Vec<ScoredToken>)
    ensures
        sorted_desc(r@),
        r@.to_multiset() == cands@.to_multiset(),
        r@.len() == cands@.len(),
{
    broadcast use vstd::seq_lib::group_to_multiset_ensures;

    let mut remaining = vstd::slice::slice_to_vec(cands.as_slice());
    let mut out: Vec<ScoredToken> = Vec::new();
    while remaining.len() > 0
        invariant
            sorted_desc(out@),
            out@.to_multiset().add(remaining@.to_multiset()) == cands@.to_multiset(),
            out@.len() + remaining@.len() == cands@.len(),
            forall|i: int, j: int|
                0 <= i < out@.len() && 0 <= j < remaining@.len() ==> out@[i].score
                    >= remaining@[j].score,
        decreases remaining.len(),
    {
        let mut best: usize = 0;
        let mut bi: usize = 1;
        while bi < remaining.len()
            invariant
                remaining@.len() > 0,
                best < bi <= remaining@.len(),
                forall|j: int| 0 <= j < bi ==> remaining@[j].score <= remaining@[best as int].score,
            decreases remaining.len() - bi,
        {
            if remaining[bi].score > remaining[best].score {
                best = bi;
            }
            bi += 1;
        }
        let ghost old_rem = remaining@;
        let ghost old_out = out@;
        let x = remaining.remove(best);
        out.push(x);
        proof {
            broadcast use vstd::seq_lib::group_to_multiset_ensures;

            assert(old_rem.remove(best as int).to_multiset() == old_rem.to_multiset().remove(x));
            assert(old_rem.to_multiset().contains(x));
            assert(out@.to_multiset() =~= old_out.to_multiset().insert(x));
            assert(out@.to_multiset().add(remaining@.to_multiset()) =~= old_out.to_multiset().add(
                old_rem.to_multiset(),
            ));
            assert forall|i: int, j: int|
                0 <= i < out@.len() && 0 <= j < remaining@.len() implies out@[i].score
                >= remaining@[j].score by {
                if i < out@.len() - 1 {
                    if j < best {
                        assert(old_rem[j].score <= out@[i].score);
                    } else {
                        assert(remaining@[j] == old_rem[j + 1]);
                    }
                } else {
                    assert(out@[i] == x);
                    if j < best {
                        assert(remaining@[j] == old_rem[j]);
                    } else {
                        assert(remaining@[j] == old_rem[j + 1]);
                    }
                }
            }
        }
    }
    out
}

/// The best `k` candidates, best first: some score-sorted permutation of the
/// candidates, cut after `k` entries.
pub fn top_k(cands: &Vec<ScoredToken>, k: usize) -> (r: Vec<ScoredToken>)
    ensures
        r@.len() == if k <= cands@.len() {
            k as int
        } else {
            cands@.len() as int
        },
        sorted_desc(r@),
        exists|s: Seq<ScoredToken>|
            {
                &&& sorted_desc(s)
                &&& #[trigger] s.to_multiset() == cands@.to_multiset()
                &&& r@ == s.take(r@.len() as int)
            },
{
    let mut sorted = sort_desc(cands);
    let ghost s = sorted@;
    sorted.truncate(k);
    proof {
        if k <= s.len() {
            assert(sorted@ == s.take(k as int));
        } else {
            assert(sorted@ =~= s.take(s.len() as int));
        }
        assert(sorted_desc(sorted@));
    }
    sorted
}

/// Greedy sampling: the first best-scored candidate, or nothing when there
/// are no candidates at all.
pub fn sample_greedy(cands: &Vec<ScoredToken>) -> (r: Option<u32>)
    ensures
        r is Some <==> cands@.len() > 0,
        cands@.len() > 0 ==> r == Option::Some(cands@[first_max_index(cands@)].token),
{
    if cands.len() == 0 {
        return Option::None;
    }
    let n = cands.len();
    let mut best: usize = 0;
    let mut i: usize = 1;
    while i < n
        invariant
            n == cands@.len(),
            0 < n,
            best < i <= n,
            best as int == first_max_index(cands@.take(i as int)),
        decreases n - i,
    {
        proof {
            assert(cands@.take(i + 1 as int).drop_last() =~= cands@.take(i as int));
        }
        if cands[i].score > cands[best].score {
            best = i;
        }
        i += 1;
    }
    proof {
        assert(cands@.take(n as int) =~= cands@);
    }
    Option::Some(cands[best].token)
}

/// Whether the token occurs in the allowed list.
fn contains_token(allowed: &Vec<u32>, token: u32) -> (r: bool)
    ensures
        r == allowed@.contains(token),
{
    let n = allowed.len();
    let mut i: usize = 0;
    while i < n
        invariant
            n == allowed@.len(),
            i <= n,
            forall|j: int| 0 <= j < i ==> allowed@[j] != token,
        decreases n - i,
    {
        if allowed[i] == token {
            return true;
        }
        i += 1;
    }
    false
}

/// Constrained sampling: the first best-scored candidate that the oracle's
/// allowed set contains; with no acceptable candidate the request fails hard
/// with [`GenerationError::NoValidTokens`].
pub fn sample_constrained(cands: &Vec<ScoredToken>, allowed: &Vec<u32>) -> (r: Result<
    u32,
    GenerationError,
>)
    ensures
        accepted(cands@, allowed@).len() == 0 ==> r == Result::<u32, GenerationError>::Err(
            GenerationError::NoValidTokens,
        ),
        accepted(cands@, allowed@).len() > 0 ==> r == Result::<u32, GenerationError>::Ok(
            accepted(cands@, allowed@)[first_max_index(accepted(cands@, allowed@))].token,
        ),
{
    let ghost pred = |c: ScoredToken| allowed@.contains(c.token);
    let n = cands.len();
    let mut filtered: Vec<ScoredToken> = Vec::new();
    let mut i: usize = 0;
    while i < n
        invariant
            n == cands@.len(),
            i <= n,
            pred == (|c: ScoredToken| allowed@.contains(c.token)),
            filtered@ == cands@.take(i as int).filter(pred),
        decreases n - i,
    {
        let c = cands[i];
        let keep = contains_token(allowed, c.token);
        proof {
            reveal(Seq::filter);
            assert(cands@.take(i + 1 as int).drop_last() =~= cands@.take(i as int));
            assert(cands@.take(i + 1 as int).last() == cands@[i as int]);
        }
        if keep {
            filtered.push(c);
        }
        i += 1;
    }
    proof {
        assert(cands@.take(n as int) =~= cands@);
    }
    match sample_greedy(&filtered) {
        Option::Some(t) => Ok(t),
        Option::None => Err(GenerationError::NoValidTokens),
    }
}

} // verus!
