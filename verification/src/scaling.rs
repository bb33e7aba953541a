//! Best-of-N: scoring and choosing among candidate turns.
use vstd::prelude::*;

use crate::orchestrator::CoAResult;
use crate::text::push_str;
use crate::trajectory::{seg_views, Role};

verus! {

/// The instructions of the judge.
pub const JUDGE_PREAMBLE: &'static str =
    "You are a strict but fair judge of an English tutor's reply. Read the case and return a credibility score from 1 to 4 with a brief rationale.";

/// A judge's score, brought into the range 1 to 4.
pub fn clamp_score(score: i32) -> (r: i32)
    ensures
        r == if score < 1 {
            1
        } else if score > 4 {
            4
        } else {
            score
        },
{
    if score < 1 {
        1
    } else if score > 4 {
        4
    } else {
        score
    }
}

/// The index of the best-scored candidate: the last among those with the
/// highest score (as `Iterator::max_by_key` picks it).
pub open spec fn best_index(scores: Seq<i32>) -> int
    decreases scores.len(),
{
    if scores.len() <= 1 {
        0
    } else {
        let i = best_index(scores.drop_last());
        if scores.last() >= scores[i] {
            scores.len() - 1
        } else {
            i
        }
    }
}

/// The best index holds a highest score, and every later candidate scores lower.
pub proof fn lemma_best_index(scores: Seq<i32>)
    requires
        scores.len() > 0,
    ensures
        0 <= best_index(scores) < scores.len(),
        forall|j: int| 0 <= j < scores.len() ==> #[trigger] scores[j] <= scores[best_index(scores)],
        forall|j: int| best_index(scores) < j < scores.len() ==> #[trigger] scores[j] < scores[best_index(scores)],
    decreases scores.len(),
{
    if scores.len() > 1 {
        let t = scores.drop_last();
        lemma_best_index(t);
        assert forall|j: int| 0 <= j < t.len() implies t[j] == scores[j] by {}
    }
}

/// The scores of ranked candidates.
pub open spec fn scores_of<T>(ranked: Seq<(i32, T)>) -> Seq<i32> {
    ranked.map_values(|p: (i32, T)| p.0)
}

/// The best-scored candidate, with its score.
pub fn best_candidate<T>(ranked: Vec<(i32, T)>) -> (r: (i32, T))
    requires
        ranked@.len() > 0,
    ensures
        r == ranked@[best_index(scores_of(ranked@))],
{
    let ghost scores = scores_of(ranked@);
    let mut best: usize = 0;
    let mut i: usize = 1;
    while i < ranked.len()
        invariant
            1 <= i <= ranked@.len(),
            scores == scores_of(ranked@),
            best == best_index(scores.take(i as int)),
        decreases ranked@.len() - i,
    {
        proof {
            let t = scores.take(i + 1);
            assert(t.drop_last() =~= scores.take(i as int));
            lemma_best_index(scores.take(i as int));
        }
        if ranked[i].0 >= ranked[best].0 {
            best = i;
        }
        i = i + 1;
    }
    assert(scores.take(i as int) =~= scores);
    proof {
        lemma_best_index(scores);
    }
    let mut ranked = ranked;
    ranked.remove(best)
}

/// The index of the first segment of `xs` with the given role.
pub open spec fn first_index_of(xs: Seq<(Role, Seq<char>)>, role: Role) -> Option<int>
    decreases xs.len(),
{
    if xs.len() == 0 {
        None
    } else if xs[0].0 == role {
        Some(0)
    } else {
        match first_index_of(xs.drop_first(), role) {
            Some(i) => Some(i + 1),
            None => None,
        }
    }
}

/// The correction a candidate saved: the content of its first
/// save-correction segment, or nothing.
pub open spec fn correction_of(xs: Seq<(Role, Seq<char>)>) -> Seq<char> {
    match first_index_of(xs, Role::SaveCorrection) {
        Some(i) => xs[i].1,
        None => seq![],
    }
}

/// The correction that a candidate turn saved, for the judge.
pub fn extract_correction(result: &CoAResult) -> (r: String)
    ensures
        r@ == correction_of(seg_views(result.trajectory.segments@)),
{
    let segs = &result.trajectory.segments;
    let ghost xs = seg_views(segs@);
    let mut i: usize = 0;
    while i < segs.len()
        invariant
            i <= segs@.len(),
            xs == seg_views(segs@),
            xs == seg_views(result.trajectory.segments@),
            forall|j: int| 0 <= j < i ==> xs[j].0 != Role::SaveCorrection,
        decreases segs@.len() - i,
    {
        assert(xs[i as int] == segs@[i as int]@);
        if segs[i].role == Role::SaveCorrection {
            proof {
                lemma_first_index_at(xs, Role::SaveCorrection, i as int);
            }
            let mut r = String::new();
            push_str(&mut r, segs[i].content.as_str());
            return r;
        }
        i = i + 1;
    }
    proof {
        lemma_first_index_none(xs, Role::SaveCorrection);
    }
    String::new()
}

proof fn lemma_first_index_at(xs: Seq<(Role, Seq<char>)>, role: Role, i: int)
    requires
        0 <= i < xs.len(),
        xs[i].0 == role,
        forall|j: int| 0 <= j < i ==> xs[j].0 != role,
    ensures
        first_index_of(xs, role) == Some(i),
    decreases i,
{
    if i > 0 {
        let t = xs.drop_first();
        assert forall|j: int| 0 <= j < i - 1 implies t[j].0 != role by {
            assert(t[j] == xs[j + 1]);
        }
        lemma_first_index_at(t, role, i - 1);
    }
}

proof fn lemma_first_index_none(xs: Seq<(Role, Seq<char>)>, role: Role)
    requires
        forall|j: int| 0 <= j < xs.len() ==> xs[j].0 != role,
    ensures
        first_index_of(xs, role) is None,
    decreases xs.len(),
{
    if xs.len() > 0 {
        let t = xs.drop_first();
        assert forall|j: int| 0 <= j < t.len() implies t[j].0 != role by {
            assert(t[j] == xs[j + 1]);
        }
        lemma_first_index_none(t, role);
    }
}

} // verus!
