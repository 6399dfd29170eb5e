//! Choice of the dominant frequency bin of a spectrum.
//!
//! Levels are compared, never computed with, so they are taken as unsigned
//! integer keys that order as the levels do. The bit pattern of a
//! non-negative single-precision number is such a key, and key `0` is
//! silence.
use vstd::prelude::*;

verus! {

/// Bin `bin` has a neighbour on either side and is at least as loud as both.
pub open spec fn is_peak(magnitudes: Seq<u32>, bin: int) -> bool {
    &&& 1 <= bin < magnitudes.len() - 1
    &&& magnitudes[bin] >= magnitudes[bin + 1]
    &&& magnitudes[bin] >= magnitudes[bin - 1]
}

/// Bin `bin` is a peak whose score is above silence.
pub open spec fn is_candidate(magnitudes: Seq<u32>, scores: Seq<u32>, bin: int) -> bool {
    is_peak(magnitudes, bin) && scores[bin] > 0
}

/// Bin `bin` is the candidate of greatest score, the lowest such bin where
/// several share that score; without any candidate it is bin 1.
pub open spec fn is_dominant(magnitudes: Seq<u32>, scores: Seq<u32>, bin: int) -> bool {
    if exists|c: int| is_candidate(magnitudes, scores, c) {
        &&& is_candidate(magnitudes, scores, bin)
        &&& forall|c: int| is_candidate(magnitudes, scores, c) ==> scores[c] <= scores[bin]
        &&& forall|c: int|
            is_candidate(magnitudes, scores, c) && c < bin ==> scores[c] < scores[bin]
    } else {
        bin == 1
    }
}

/// What a scan has found once every bin below `upto` has been considered:
/// `best` is the greatest score of a candidate below `upto`, or `0` without
/// one, and `bin` the lowest candidate that has it, or 1.
spec fn leads(magnitudes: Seq<u32>, scores: Seq<u32>, upto: int, bin: int, best: u32) -> bool {
    &&& forall|c: int| c < upto && is_candidate(magnitudes, scores, c) ==> scores[c] <= best
    &&& if best == 0 {
        bin == 1
    } else {
        &&& bin < upto
        &&& is_candidate(magnitudes, scores, bin)
        &&& scores[bin] == best
        &&& forall|c: int| c < bin && is_candidate(magnitudes, scores, c) ==> scores[c] < best
    }
}

/// A spectrum has exactly one dominant bin.
pub proof fn lemma_dominant_is_unique(
    magnitudes: Seq<u32>,
    scores: Seq<u32>,
    first: int,
    second: int,
)
    requires
        is_dominant(magnitudes, scores, first),
        is_dominant(magnitudes, scores, second),
    ensures
        first == second,
{
    if exists|c: int| is_candidate(magnitudes, scores, c) {
        if first < second {
            assert(scores[first] < scores[second]);
            assert(scores[second] <= scores[first]);
        } else if second < first {
            assert(scores[second] < scores[first]);
            assert(scores[first] <= scores[second]);
        }
    }
}

/// The dominant bin of a spectrum lies strictly between its first and last
/// bins whenever there are at least three, and is bin 1 for silence.
pub proof fn lemma_dominant_in_range(magnitudes: Seq<u32>, scores: Seq<u32>, bin: int)
    requires
        magnitudes.len() == scores.len(),
        is_dominant(magnitudes, scores, bin),
    ensures
        1 <= bin,
        magnitudes.len() >= 3 ==> bin < magnitudes.len() - 1,
        (forall|c: int| 0 <= c < scores.len() ==> scores[c] == 0) ==> bin == 1,
{
    if exists|c: int| is_candidate(magnitudes, scores, c) {
        let c = choose|c: int| is_candidate(magnitudes, scores, c);
        assert(0 <= c < scores.len() && scores[c] > 0);
    }
}

/// The dominant bin of a spectrum.
///
/// `magnitudes[b]` is the level of bin `b` and `scores[b]` the level that
/// bin `b` competes with once it is found to be a peak. A bin is a peak if
/// it has both neighbours and is no quieter than either. The peak of
/// greatest score above silence wins, the lowest bin among equals; bin 1 is
/// returned where no peak is above silence.
pub fn dominant_bin(magnitudes: &[u32], scores: &[u32]) -> (bin: usize)
    requires
        magnitudes@.len() == scores@.len(),
    ensures
        is_dominant(magnitudes@, scores@, bin as int),
{
    let count: usize = magnitudes.len();
    let mut max_bin: usize = 1;
    let mut best: u32 = 0;
    if count >= 3 {
        let mut prevprev: u32 = magnitudes[0];
        let mut prev: u32 = magnitudes[1];
        let mut b: usize = 2;
        while b < count
            invariant
                count == magnitudes@.len(),
                count == scores@.len(),
                2 <= b <= count,
                prevprev == magnitudes@[b - 2],
                prev == magnitudes@[b - 1],
                leads(magnitudes@, scores@, b - 1, max_bin as int, best),
            decreases count - b,
        {
            let cur: u32 = magnitudes[b];
            if prev >= cur && prev >= prevprev {
                let score: u32 = scores[b - 1];
                if score > best {
                    best = score;
                    max_bin = b - 1;
                }
            }
            prevprev = prev;
            prev = cur;
            b += 1;
        }
    }
    proof {
        let upto = if count >= 3 {
            count - 1
        } else {
            1int
        };
        assert(leads(magnitudes@, scores@, upto, max_bin as int, best));
        assert forall|c: int| is_candidate(magnitudes@, scores@, c) implies c < upto by {}
        if best == 0 {
            assert forall|c: int| !is_candidate(magnitudes@, scores@, c) by {}
        } else {
            assert(is_candidate(magnitudes@, scores@, max_bin as int));
        }
    }
    max_bin
}

} // verus!
