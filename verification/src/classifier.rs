use vstd::prelude::*;

verus! {

/// Settings for one class of characters used in the password: the candidate
/// grapheme clusters it may contribute, and how many positions of the final
/// password are guaranteed to be drawn from it.
#[derive(Debug, Clone)]
pub struct Classifier {
    /// Candidate grapheme clusters, each held as one complete string entry.
    pub candidates: Vec<String>,
    /// Minimum number of password positions drawn from this classifier.
    pub minimum_count: u32,
}

impl Classifier {
    /// The candidate pool as a sequence of character sequences.
    pub open spec fn pool(self) -> Seq<Seq<char>> {
        self.candidates@.map_values(|s: String| s@)
    }

    /// A classifier that demands at least one character but offers none.
    pub open spec fn empty_with_min(self) -> bool {
        self.candidates@.len() == 0 && self.minimum_count > 0
    }
}

/// Sum of the minimum counts of a sequence of classifiers.
pub open spec fn sum_min(cs: Seq<Classifier>) -> int
    decreases cs.len(),
{
    if cs.len() == 0 {
        0
    } else {
        sum_min(cs.drop_last()) + cs.last().minimum_count
    }
}

/// The sum of minimum counts over a prefix grows by the next element's count.
pub proof fn lemma_sum_min_take(cs: Seq<Classifier>, i: int)
    requires
        0 <= i < cs.len(),
    ensures
        sum_min(cs.take(i + 1)) == sum_min(cs.take(i)) + cs[i].minimum_count,
{
    assert(cs.take(i + 1).drop_last() =~= cs.take(i));
    assert(cs.take(i + 1).last() == cs[i]);
}

/// Prefix sums of minimum counts grow with the prefix.
pub proof fn lemma_sum_min_prefix_mono(cs: Seq<Classifier>, a: int, b: int)
    requires
        0 <= a <= b <= cs.len(),
    ensures
        sum_min(cs.take(a)) <= sum_min(cs.take(b)),
    decreases b - a,
{
    if a < b {
        lemma_sum_min_take(cs, b - 1);
        lemma_sum_min_prefix_mono(cs, a, b - 1);
    }
}

/// The sum of minimum counts is never negative.
pub proof fn lemma_sum_min_nonneg(cs: Seq<Classifier>)
    ensures
        0 <= sum_min(cs),
    decreases cs.len(),
{
    if cs.len() > 0 {
        lemma_sum_min_nonneg(cs.drop_last());
    }
}

} // verus!
