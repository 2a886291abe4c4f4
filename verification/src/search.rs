//! Candidate generation and ranking.
//!
//! A search alternates between vector arithmetic, whose results arrive here as
//! scores, and the decisions that this module makes from them: which centroids
//! to probe, which documents to score, and which to return in what order.

use crate::bitmap::{bitmap_to_vec, bitmap_values};
use crate::eligibility::Eligibility;
use crate::error::{Error, Fault, Result};
use crate::index::{PlaidIndex, Segment};
use crate::matrix::{row_bounds, Grid, Matrix};
use crate::postings::strictly_increasing;
use crate::scalar;
use crate::sort::{ascending, ascending_is_sorted_permutation, sort, TotalOrder};
use crate::text::{decimal, text_three_numbers};
use roaring::RoaringBitmap;
use vstd::prelude::*;
use vstd::relations::*;

verus! {

/// Query-time controls for the PLAID candidate and reranking pipeline.
#[derive(Clone, Copy, Debug)]
pub struct PlaidSearchParams {
    /// Number of coarse centroids selected per query token.
    pub n_ivf_probe: usize,
    /// Number of approximate candidates retained before residual reranking.
    pub n_full_scores: usize,
    /// Number of final documents returned.
    pub top_k: usize,
    /// Minimum query-token similarity required for a probed centroid.
    pub centroid_score_threshold: Option<u32>,
}

impl Default for PlaidSearchParams {
    /// Eight probes, 4096 approximate candidates, ten results and a similarity
    /// threshold of 0.4.
    fn default() -> (result: PlaidSearchParams)
        ensures
            result.n_ivf_probe == 8,
            result.n_full_scores == 4096,
            result.top_k == 10,
            result.centroid_score_threshold == Some(0x3ecc_cccdu32),
    {
        PlaidSearchParams {
            n_ivf_probe: 8,
            n_full_scores: 4096,
            top_k: 10,
            centroid_score_threshold: Some(0x3ecc_cccd),
        }
    }
}

/// Per-query phase counters and CPU durations.
#[derive(Clone, Copy, Debug, PartialEq, Eq, Structural)]
pub struct PlaidSearchStats {
    /// Nanoseconds spent scoring and selecting coarse centroids.
    pub centroid_probe_nanos: u64,
    /// Number of distinct coarse centroids probed.
    pub centroids_probed: u64,
    /// Nanoseconds spent expanding postings and applying eligibility.
    pub postings_nanos: u64,
    /// Posting entries visited before eligibility filtering.
    pub posting_entries_read: u64,
    /// Posting entries that survived eligibility filtering.
    pub posting_entries_eligible: u64,
    /// Number of unique eligible candidate documents.
    pub candidate_documents: u64,
    /// Nanoseconds spent computing code-only approximate scores.
    pub approximate_score_nanos: u64,
    /// Number of documents receiving approximate scores.
    pub approximate_documents: u64,
    /// Nanoseconds spent reconstructing residuals and computing MaxSim.
    pub exact_score_nanos: u64,
    /// Number of documents receiving reconstructed MaxSim scores.
    pub exact_documents: u64,
    /// Nanoseconds spent sorting approximate and final results.
    pub sort_nanos: u64,
    /// Total kernel wall-clock time in nanoseconds.
    pub total_nanos: u64,
    /// Nanoseconds spent selecting among eligible centroids only.
    pub eligible_centroid_selection_nanos: u64,
    /// Number of probing rounds.
    pub probe_rounds: u64,
    /// Number of rounds after the first.
    pub probe_retries: u64,
    /// Probes per query token summed over all rounds.
    pub configured_probes: u64,
    /// Probes per query token in the last round.
    pub final_nprobe: u64,
    /// Centroids whose postings an earlier round had already expanded, summed
    /// over all rounds.
    pub incremental_centroids_reused: u64,
}

/// Statistics before anything was done.
pub open spec fn no_stats() -> PlaidSearchStats {
    PlaidSearchStats {
        centroid_probe_nanos: 0,
        centroids_probed: 0,
        postings_nanos: 0,
        posting_entries_read: 0,
        posting_entries_eligible: 0,
        candidate_documents: 0,
        approximate_score_nanos: 0,
        approximate_documents: 0,
        exact_score_nanos: 0,
        exact_documents: 0,
        sort_nanos: 0,
        total_nanos: 0,
        eligible_centroid_selection_nanos: 0,
        probe_rounds: 0,
        probe_retries: 0,
        configured_probes: 0,
        final_nprobe: 0,
        incremental_centroids_reused: 0,
    }
}

impl Default for PlaidSearchStats {
    fn default() -> (result: PlaidSearchStats)
        ensures
            result == no_stats(),
    {
        PlaidSearchStats {
            centroid_probe_nanos: 0,
            centroids_probed: 0,
            postings_nanos: 0,
            posting_entries_read: 0,
            posting_entries_eligible: 0,
            candidate_documents: 0,
            approximate_score_nanos: 0,
            approximate_documents: 0,
            exact_score_nanos: 0,
            exact_documents: 0,
            sort_nanos: 0,
            total_nanos: 0,
            eligible_centroid_selection_nanos: 0,
            probe_rounds: 0,
            probe_retries: 0,
            configured_probes: 0,
            final_nprobe: 0,
            incremental_centroids_reused: 0,
        }
    }
}

/// One ranked database row returned by the PLAID kernel.
#[derive(Clone, Copy, Debug, PartialEq, Eq, Structural)]
pub struct SearchHit {
    /// Dense document ordinal internal to the index segment.
    pub document_ordinal: u32,
    /// Database row address associated with the document.
    pub row_address: u64,
    /// Reconstructed MaxSim similarity, where larger is better.
    pub score: u32,
}

/// Hits rank by descending score, then by ascending row address. Document
/// ordinals settle what is left.
impl TotalOrder for SearchHit {
    open spec fn before(self, other: Self) -> bool {
        ||| scalar::total_position(self.score) > scalar::total_position(other.score)
        ||| self.score == other.score && self.row_address < other.row_address
        ||| self.score == other.score && self.row_address == other.row_address
            && self.document_ordinal <= other.document_ordinal
    }

    proof fn before_is_total_order() {
        assert forall|left: Self, right: Self|
            left.before(right) && right.before(left) implies left == right by {
            if scalar::total_position(left.score) == scalar::total_position(right.score) {
                scalar::total_position_is_injective(left.score, right.score);
            }
        }
        assert forall|left: Self, right: Self| left.before(right) || right.before(left) by {
            if scalar::total_position(left.score) == scalar::total_position(right.score) {
                scalar::total_position_is_injective(left.score, right.score);
            }
        }
        let relation = |left: Self, right: Self| left.before(right);
        assert(reflexive(relation));
        assert(antisymmetric(relation));
        assert(transitive(relation));
        assert(strongly_connected(relation));
    }

    fn is_before(&self, other: &Self) -> (result: bool) {
        let left: i64 = scalar::to_total_position(self.score);
        let right: i64 = scalar::to_total_position(other.score);
        if left != right {
            return left > right;
        }
        proof {
            scalar::total_position_is_injective(self.score, other.score);
        }
        if self.row_address != other.row_address {
            return self.row_address < other.row_address;
        }
        self.document_ordinal <= other.document_ordinal
    }
}

/// The larger of two values in the total order.
pub open spec fn larger(left: u32, right: u32) -> u32 {
    if scalar::total_position(right) > scalar::total_position(left) {
        right
    } else {
        left
    }
}

/// The largest of some similarities, but at least negative infinity.
pub open spec fn top_similarity(similarities: Seq<u32>) -> u32
    decreases similarities.len(),
{
    if similarities.len() == 0 {
        scalar::NEG_INFINITY
    } else {
        larger(top_similarity(similarities.drop_last()), similarities.last())
    }
}

/// No similarity exceeds the top one, and the top one is among them unless all
/// of them lie below negative infinity.
pub proof fn top_similarity_is_maximum(similarities: Seq<u32>)
    ensures
        forall|i: int|
            0 <= i < similarities.len() ==> scalar::total_position(#[trigger] similarities[i])
                <= scalar::total_position(top_similarity(similarities)),
        top_similarity(similarities) == scalar::NEG_INFINITY || similarities.contains(
            top_similarity(similarities),
        ),
        scalar::total_position(scalar::NEG_INFINITY) <= scalar::total_position(
            top_similarity(similarities),
        ),
    decreases similarities.len(),
{
    if similarities.len() > 0 {
        let shorter = similarities.drop_last();
        top_similarity_is_maximum(shorter);
        assert forall|i: int| 0 <= i < similarities.len() implies scalar::total_position(
            #[trigger] similarities[i],
        ) <= scalar::total_position(top_similarity(similarities)) by {
            if i < shorter.len() {
                assert(shorter[i] == similarities[i]);
            }
        }
        if top_similarity(similarities) == similarities.last() {
            assert(similarities[similarities.len() - 1] == top_similarity(similarities));
        } else if shorter.contains(top_similarity(shorter)) {
            let i = choose|i: int|
                0 <= i < shorter.len() && shorter[i] == top_similarity(shorter);
            assert(similarities[i] == top_similarity(similarities));
        }
    }
}

/// Executable form of [`larger`].
fn pick_larger(left: u32, right: u32) -> (result: u32)
    ensures
        result == larger(left, right),
{
    if scalar::to_total_position(right) > scalar::to_total_position(left) {
        right
    } else {
        left
    }
}

/// The terms of ColBERT MaxSim: for each query token, the maximum similarity
/// with any document token. The similarities have one row for each query token
/// and one column for each document token. A document without tokens has no
/// terms, and scores negative infinity.
pub fn maxsim_naive(similarities: &Matrix) -> (result: Option<Vec<u32>>)
    ensures
        match result {
            None => similarities@.columns == 0,
            Some(maxima) => similarities@.columns > 0 && maxima@ == Seq::new(
                similarities@.rows,
                |token: int| top_similarity(similarities@.row(token)),
            ),
        },
{
    if similarities.columns() == 0 {
        return None;
    }
    let mut maxima: Vec<u32> = Vec::new();
    let mut token: usize = 0;
    while token < similarities.rows()
        invariant
            token <= similarities@.rows,
            maxima@ == Seq::new(
                token as nat,
                |token: int| top_similarity(similarities@.row(token)),
            ),
        decreases similarities@.rows - token,
    {
        proof {
            use_type_invariant(similarities);
            row_bounds(similarities@, token as int);
        }
        let ghost row = similarities@.row(token as int);
        let mut maximum: u32 = scalar::NEG_INFINITY;
        let mut column: usize = 0;
        assert(row.take(0) =~= Seq::<u32>::empty());
        while column < similarities.columns()
            invariant
                token < similarities@.rows,
                row == similarities@.row(token as int),
                row.len() == similarities@.columns,
                column <= similarities@.columns,
                maximum == top_similarity(row.take(column as int)),
            decreases similarities@.columns - column,
        {
            let similarity: u32 = similarities.value(token, column);
            maximum = pick_larger(maximum, similarity);
            assert(row.take(column + 1).drop_last() =~= row.take(column as int));
            column += 1;
        }
        assert(row.take(column as int) =~= row);
        maxima.push(maximum);
        token += 1;
    }
    Some(maxima)
}

/// The similarities of a document's token codes to one query token.
pub open spec fn code_similarities(row: Seq<u32>, codes: Seq<u32>) -> Seq<u32> {
    codes.map_values(|code: u32| row[code as int])
}

/// The terms of a code-only score: for each query token, the maximum similarity
/// with the centroid of any document token.
pub fn approximate_score(query_centroid_scores: &Matrix, document_codes: &[u32]) -> (result: Vec<
    u32,
>)
    requires
        forall|i: int|
            0 <= i < document_codes@.len() ==> #[trigger] document_codes@[i]
                < query_centroid_scores@.columns,
    ensures
        result@ == Seq::new(
            query_centroid_scores@.rows,
            |token: int|
                top_similarity(
                    code_similarities(query_centroid_scores@.row(token), document_codes@),
                ),
        ),
{
    let mut maxima: Vec<u32> = Vec::new();
    let mut token: usize = 0;
    while token < query_centroid_scores.rows()
        invariant
            forall|i: int|
                0 <= i < document_codes@.len() ==> #[trigger] document_codes@[i]
                    < query_centroid_scores@.columns,
            token <= query_centroid_scores@.rows,
            maxima@ == Seq::new(
                token as nat,
                |token: int|
                    top_similarity(
                        code_similarities(query_centroid_scores@.row(token), document_codes@),
                    ),
            ),
        decreases query_centroid_scores@.rows - token,
    {
        let ghost row = query_centroid_scores@.row(token as int);
        let ghost all = code_similarities(row, document_codes@);
        let mut maximum: u32 = scalar::NEG_INFINITY;
        let mut i: usize = 0;
        assert(all.take(0) =~= Seq::<u32>::empty());
        while i < document_codes.len()
            invariant
                forall|i: int|
                    0 <= i < document_codes@.len() ==> #[trigger] document_codes@[i]
                        < query_centroid_scores@.columns,
                token < query_centroid_scores@.rows,
                row == query_centroid_scores@.row(token as int),
                all == code_similarities(row, document_codes@),
                i <= document_codes@.len(),
                maximum == top_similarity(all.take(i as int)),
            decreases document_codes@.len() - i,
        {
            let similarity: u32 = query_centroid_scores.value(token, document_codes[i] as usize);
            maximum = pick_larger(maximum, similarity);
            assert(all.take(i + 1).drop_last() =~= all.take(i as int));
            i += 1;
        }
        assert(all.take(i as int) =~= all);
        maxima.push(maximum);
        token += 1;
    }
    maxima
}

/// A centroid with its similarity to one query token.
#[derive(Clone, Copy, Debug)]
pub struct RankedCentroid {
    pub score: u32,
    pub centroid: u32,
}

/// Centroids rank by descending score, then by ascending number.
impl TotalOrder for RankedCentroid {
    open spec fn before(self, other: Self) -> bool {
        ||| scalar::total_position(self.score) > scalar::total_position(other.score)
        ||| self.score == other.score && self.centroid <= other.centroid
    }

    proof fn before_is_total_order() {
        assert forall|left: Self, right: Self|
            left.before(right) && right.before(left) implies left == right by {
            if scalar::total_position(left.score) == scalar::total_position(right.score) {
                scalar::total_position_is_injective(left.score, right.score);
            }
        }
        assert forall|left: Self, right: Self| left.before(right) || right.before(left) by {
            if scalar::total_position(left.score) == scalar::total_position(right.score) {
                scalar::total_position_is_injective(left.score, right.score);
            }
        }
        let relation = |left: Self, right: Self| left.before(right);
        assert(reflexive(relation));
        assert(antisymmetric(relation));
        assert(transitive(relation));
        assert(strongly_connected(relation));
    }

    fn is_before(&self, other: &Self) -> (result: bool) {
        let left: i64 = scalar::to_total_position(self.score);
        let right: i64 = scalar::to_total_position(other.score);
        if left != right {
            return left > right;
        }
        proof {
            scalar::total_position_is_injective(self.score, other.score);
        }
        self.centroid <= other.centroid
    }
}

/// The smaller of two numbers.
pub open spec fn smaller(left: nat, right: nat) -> nat {
    if left < right {
        left
    } else {
        right
    }
}

/// A similarity reaches the threshold, if there is one.
pub open spec fn reaches(threshold: Option<u32>, score: u32) -> bool {
    match threshold {
        Some(minimum) => scalar::at_least(score, minimum),
        None => true,
    }
}

/// The allowed centroids with their similarities to one query token.
pub open spec fn scored_centroids(row: Seq<u32>, allowed: Seq<u32>) -> Seq<RankedCentroid> {
    allowed.map_values(
        |centroid: u32| RankedCentroid { score: row[centroid as int], centroid },
    )
}

/// The best allowed centroids for one query token, best first.
pub open spec fn best_centroids(row: Seq<u32>, allowed: Seq<u32>, count: nat) -> Seq<
    RankedCentroid,
> {
    ascending(scored_centroids(row, allowed)).take(smaller(count, allowed.len()) as int)
}

/// The centroids that one query token probes.
pub open spec fn token_probes(
    row: Seq<u32>,
    allowed: Seq<u32>,
    count: nat,
    threshold: Option<u32>,
) -> Set<u32> {
    Set::new(
        |centroid: u32|
            best_centroids(row, allowed, count).contains(
                RankedCentroid { score: row[centroid as int], centroid },
            ) && reaches(threshold, row[centroid as int]),
    )
}

/// The centroids that the first query tokens probe.
pub open spec fn probes(
    scores: Grid,
    allowed: Seq<u32>,
    count: nat,
    threshold: Option<u32>,
    tokens: nat,
) -> Set<u32>
    decreases tokens,
{
    if tokens == 0 {
        Set::empty()
    } else {
        probes(scores, allowed, count, threshold, (tokens - 1) as nat).union(
            token_probes(scores.row(tokens - 1), allowed, count, threshold),
        )
    }
}

/// The numbers of all centroids.
pub open spec fn all_centroids(count: nat) -> Seq<u32> {
    Seq::new(count, |centroid: int| centroid as u32)
}

/// The numbers of all centroids.
pub(crate) fn every_centroid(count: usize) -> (result: Vec<u32>)
    requires
        count <= 0x1_0000_0000,
    ensures
        result@ == all_centroids(count as nat),
        strictly_increasing(result@),
        forall|i: int| 0 <= i < result@.len() ==> #[trigger] result@[i] < count,
{
    let mut centroids: Vec<u32> = Vec::new();
    let mut centroid: usize = 0;
    while centroid < count
        invariant
            centroid <= count,
            count <= 0x1_0000_0000,
            centroids@ == all_centroids(centroid as nat),
        decreases count - centroid,
    {
        centroids.push(centroid as u32);
        centroid += 1;
        assert(centroids@ =~= all_centroids(centroid as nat));
    }
    centroids
}

/// Adds the centroids that one query token probes.
fn select_token_centroids(
    scores: &Matrix,
    token: usize,
    allowed: &Vec<u32>,
    n_ivf_probe: usize,
    threshold: Option<u32>,
    selected: &mut RoaringBitmap,
)
    requires
        token < scores@.rows,
        forall|i: int| 0 <= i < allowed@.len() ==> #[trigger] allowed@[i] < scores@.columns,
    ensures
        bitmap_values(*final(selected)) == bitmap_values(*old(selected)).union(
            token_probes(
                scores@.row(token as int),
                allowed@,
                n_ivf_probe as nat,
                threshold,
            ),
        ),
{
    let ghost row = scores@.row(token as int);
    let mut scored: Vec<RankedCentroid> = Vec::new();
    let mut i: usize = 0;
    while i < allowed.len()
        invariant
            token < scores@.rows,
            row == scores@.row(token as int),
            forall|i: int| 0 <= i < allowed@.len() ==> #[trigger] allowed@[i] < scores@.columns,
            i <= allowed@.len(),
            scored@ == scored_centroids(row, allowed@.take(i as int)),
        decreases allowed@.len() - i,
    {
        let centroid: u32 = allowed[i];
        scored.push(RankedCentroid { score: scores.value(token, centroid as usize), centroid });
        i += 1;
        assert(scored@ =~= scored_centroids(row, allowed@.take(i as int)));
    }
    assert(allowed@.take(i as int) =~= allowed@);
    let ranked = sort(&scored);
    proof {
        ascending_is_sorted_permutation(scored@);
    }
    let keep: usize = if n_ivf_probe < allowed.len() {
        n_ivf_probe
    } else {
        allowed.len()
    };
    let ghost best = best_centroids(row, allowed@, n_ivf_probe as nat);
    assert(best == ranked@.take(keep as int));
    let ghost before = bitmap_values(*selected);
    let mut k: usize = 0;
    while k < keep
        invariant
            k <= keep <= ranked@.len(),
            best == ranked@.take(keep as int),
            scored@ == scored_centroids(row, allowed@),
            forall|ranking: RankedCentroid| #[trigger]
                ranked@.contains(ranking) <==> scored@.contains(ranking),
            bitmap_values(*selected) == before.union(
                Set::new(
                    |centroid: u32|
                        best.take(k as int).contains(
                            RankedCentroid { score: row[centroid as int], centroid },
                        ) && reaches(threshold, row[centroid as int]),
                ),
            ),
        decreases keep - k,
    {
        let ranking = ranked[k];
        let reached = match threshold {
            Some(minimum) => scalar::is_at_least(ranking.score, minimum),
            None => true,
        };
        proof {
            assert(ranked@.contains(ranking));
            let j = choose|j: int| 0 <= j < scored@.len() && scored@[j] == ranking;
            assert(ranking.score == row[ranking.centroid as int]);
            assert(best[k as int] == ranking);
        }
        let ghost earlier = bitmap_values(*selected);
        if reached {
            selected.insert(ranking.centroid);
        }
        proof {
            let longer = best.take(k + 1);
            assert(longer =~= best.take(k as int).push(ranking));
            assert forall|centroid: u32| #[trigger] bitmap_values(*selected).contains(centroid)
                <==> before.contains(centroid) || longer.contains(
                RankedCentroid { score: row[centroid as int], centroid },
            ) && reaches(threshold, row[centroid as int]) by {
                let own = RankedCentroid { score: row[centroid as int], centroid };
                if best.take(k as int).contains(own) {
                    let p = choose|p: int|
                        0 <= p < best.take(k as int).len() && best.take(k as int)[p] == own;
                    assert(longer[p] == own);
                }
                if centroid == ranking.centroid {
                    assert(longer[k as int] == own);
                }
                if longer.contains(own) && centroid != ranking.centroid {
                    let p = choose|p: int| 0 <= p < longer.len() && longer[p] == own;
                    assert(p < k);
                    assert(best.take(k as int)[p] == own);
                }
            }
            assert(bitmap_values(*selected) =~= before.union(
                Set::new(
                    |centroid: u32|
                        longer.contains(
                            RankedCentroid { score: row[centroid as int], centroid },
                        ) && reaches(threshold, row[centroid as int]),
                ),
            ));
        }
        k += 1;
    }
    assert(best.take(keep as int) =~= best);
    assert(bitmap_values(*selected) =~= before.union(
        token_probes(row, allowed@, n_ivf_probe as nat, threshold),
    ));
}

/// Selects, for each query token, the best allowed centroids that reach the
/// threshold.
pub fn select_centroids(
    query_centroid_scores: &Matrix,
    allowed: &Vec<u32>,
    n_ivf_probe: usize,
    threshold: Option<u32>,
) -> (result: RoaringBitmap)
    requires
        forall|i: int|
            0 <= i < allowed@.len() ==> #[trigger] allowed@[i] < query_centroid_scores@.columns,
    ensures
        bitmap_values(result) == probes(
            query_centroid_scores@,
            allowed@,
            n_ivf_probe as nat,
            threshold,
            query_centroid_scores@.rows,
        ),
{
    let mut selected = RoaringBitmap::new();
    let mut token: usize = 0;
    while token < query_centroid_scores.rows()
        invariant
            token <= query_centroid_scores@.rows,
            forall|i: int|
                0 <= i < allowed@.len() ==> #[trigger] allowed@[i]
                    < query_centroid_scores@.columns,
            bitmap_values(selected) == probes(
                query_centroid_scores@,
                allowed@,
                n_ivf_probe as nat,
                threshold,
                token as nat,
            ),
        decreases query_centroid_scores@.rows - token,
    {
        select_token_centroids(
            query_centroid_scores,
            token,
            allowed,
            n_ivf_probe,
            threshold,
            &mut selected,
        );
        token += 1;
    }
    selected
}

/// Every probed centroid is allowed, and is among the best of a query token
/// that it is similar enough to.
pub proof fn probes_are_best_allowed(
    scores: Grid,
    allowed: Seq<u32>,
    count: nat,
    threshold: Option<u32>,
    tokens: nat,
    centroid: u32,
)
    requires
        probes(scores, allowed, count, threshold, tokens).contains(centroid),
    ensures
        allowed.contains(centroid),
        exists|token: int|
            0 <= token < tokens && #[trigger] token_probes(
                scores.row(token),
                allowed,
                count,
                threshold,
            ).contains(centroid),
    decreases tokens,
{
    let fewer = (tokens - 1) as nat;
    if probes(scores, allowed, count, threshold, fewer).contains(centroid) {
        probes_are_best_allowed(scores, allowed, count, threshold, fewer, centroid);
        let token = choose|token: int|
            0 <= token < fewer && #[trigger] token_probes(
                scores.row(token),
                allowed,
                count,
                threshold,
            ).contains(centroid);
        assert(token_probes(scores.row(token), allowed, count, threshold).contains(centroid));
    } else {
        let row = scores.row(tokens - 1);
        assert(token_probes(row, allowed, count, threshold).contains(centroid));
        let own = RankedCentroid { score: row[centroid as int], centroid };
        let best = best_centroids(row, allowed, count);
        let all = scored_centroids(row, allowed);
        ascending_is_sorted_permutation(all);
        let p = choose|p: int| 0 <= p < best.len() && best[p] == own;
        assert(ascending(all)[p] == own);
        assert(ascending(all).contains(own));
        let q = choose|q: int| 0 <= q < all.len() && all[q] == own;
        assert(allowed[q] == centroid);
    }
}

/// Why a query matrix does not fit a segment.
pub open spec fn query_fault(segment: Segment, query: Grid) -> Option<Fault> {
    if query.rows == 0 || query.columns != segment.dimension() {
        Some(
            Fault::InvalidInput(
                "query shape must be [positive, "@ + decimal(segment.dimension()) + "], got ["@
                    + decimal(query.rows) + ", "@ + decimal(query.columns) + "]"@,
            ),
        )
    } else if !query.finite() {
        Some(Fault::InvalidInput("query values must be finite"@))
    } else {
        None
    }
}

/// Why a search is refused.
pub open spec fn search_fault(segment: Segment, query: Grid, params: PlaidSearchParams) -> Option<
    Fault,
> {
    if query_fault(segment, query) is Some {
        query_fault(segment, query)
    } else if params.n_ivf_probe == 0 || params.n_full_scores == 0 || params.top_k == 0 {
        Some(
            Fault::InvalidInput(
                "n_ivf_probe, n_full_scores, and top_k must be positive, got "@ + decimal(
                    params.n_ivf_probe as nat,
                ) + ", "@ + decimal(params.n_full_scores as nat) + ", "@ + decimal(
                    params.top_k as nat,
                ),
            ),
        )
    } else if params.centroid_score_threshold is Some && !scalar::finite(
        params.centroid_score_threshold->0,
    ) {
        Some(Fault::InvalidInput("centroid_score_threshold must be finite when present"@))
    } else {
        None
    }
}

/// The documents of a segment that a query may see.
pub open spec fn visible<E: Eligibility>(segment: Segment, eligibility: E) -> spec_fn(u32) -> bool {
    |document: u32| eligibility.admits(document, segment.row_addresses[document as int])
}

/// The sum of a weight over some numbers.
pub open spec fn total(numbers: Seq<u32>, weight: spec_fn(u32) -> nat) -> nat
    decreases numbers.len(),
{
    if numbers.len() == 0 {
        0
    } else {
        total(numbers.drop_last(), weight) + weight(numbers.last())
    }
}

/// Posting entries of some centroids.
pub open spec fn entries_read(segment: Segment, centroids: Seq<u32>) -> nat {
    total(centroids, |centroid: u32| segment.posted(centroid as int).len())
}

/// How many documents of a list satisfy a predicate.
pub open spec fn count_where(documents: Seq<u32>, wanted: spec_fn(u32) -> bool) -> nat
    decreases documents.len(),
{
    if documents.len() == 0 {
        0
    } else {
        count_where(documents.drop_last(), wanted) + if wanted(documents.last()) {
            1nat
        } else {
            0nat
        }
    }
}

/// Posting entries of some centroids that name visible documents.
pub open spec fn entries_eligible(
    segment: Segment,
    centroids: Seq<u32>,
    wanted: spec_fn(u32) -> bool,
) -> nat {
    total(centroids, |centroid: u32| count_where(segment.posted(centroid as int), wanted))
}

/// The visible documents that some centroids post.
pub open spec fn candidates(
    segment: Segment,
    centroids: Seq<u32>,
    wanted: spec_fn(u32) -> bool,
) -> Set<u32>
    decreases centroids.len(),
{
    if centroids.len() == 0 {
        Set::empty()
    } else {
        candidates(segment, centroids.drop_last(), wanted).union(
            Set::new(
                |document: u32|
                    segment.posted(centroids.last() as int).contains(document) && wanted(document),
            ),
        )
    }
}

/// A candidate is a visible document that one of the centroids posts.
pub proof fn candidates_are_posted_and_visible(
    segment: Segment,
    centroids: Seq<u32>,
    wanted: spec_fn(u32) -> bool,
    document: u32,
)
    ensures
        candidates(segment, centroids, wanted).contains(document) <==> wanted(document) && exists|
            i: int,
        |
            0 <= i < centroids.len() && #[trigger] segment.posted(centroids[i] as int).contains(
                document,
            ),
    decreases centroids.len(),
{
    if centroids.len() > 0 {
        let fewer = centroids.drop_last();
        candidates_are_posted_and_visible(segment, fewer, wanted, document);
        if wanted(document) {
            if exists|i: int|
                0 <= i < fewer.len() && #[trigger] segment.posted(fewer[i] as int).contains(
                    document,
                ) {
                let i = choose|i: int|
                    0 <= i < fewer.len() && #[trigger] segment.posted(fewer[i] as int).contains(
                        document,
                    );
                assert(segment.posted(centroids[i] as int).contains(document));
            }
            if exists|i: int|
                0 <= i < centroids.len() && #[trigger] segment.posted(
                    centroids[i] as int,
                ).contains(document) {
                let i = choose|i: int|
                    0 <= i < centroids.len() && #[trigger] segment.posted(
                        centroids[i] as int,
                    ).contains(document);
                if i < fewer.len() {
                    assert(segment.posted(fewer[i] as int).contains(document));
                }
            }
            if segment.posted(centroids.last() as int).contains(document) {
                assert(segment.posted(centroids[centroids.len() - 1] as int).contains(document));
            }
        }
    }
}

/// A count capped at the largest 64-bit number.
pub open spec fn capped(count: nat) -> u64 {
    if count > u64::MAX {
        u64::MAX
    } else {
        count as u64
    }
}

/// A number rendered as a duration in nanoseconds, capped at the largest 64-bit
/// number.
pub fn duration_nanos(nanos: u128) -> (result: u64)
    ensures
        result == capped(nanos as nat),
{
    if nanos > u64::MAX as u128 {
        u64::MAX
    } else {
        nanos as u64
    }
}

/// A document with its score.
#[derive(Clone, Copy, Debug)]
pub struct ScoredDocument {
    pub document_ordinal: u32,
    pub score: u32,
}

/// The hit for a scored document.
pub open spec fn hit_of(segment: Segment, scored: ScoredDocument) -> SearchHit {
    SearchHit {
        document_ordinal: scored.document_ordinal,
        row_address: segment.row_addresses[scored.document_ordinal as int],
        score: scored.score,
    }
}

/// Scored documents as hits, best first.
pub open spec fn ranked(segment: Segment, scored: Seq<ScoredDocument>) -> Seq<SearchHit> {
    ascending(scored.map_values(|one: ScoredDocument| hit_of(segment, one)))
}

/// How many of the approximately scored documents are scored exactly: a quarter
/// of the approximate budget or the result count, whichever is larger, but no
/// more than the budget and the documents there are.
pub open spec fn exact_count(params: PlaidSearchParams, documents: nat) -> nat {
    let quarter = params.n_full_scores as nat / 4;
    let wanted = if quarter < params.top_k {
        params.top_k as nat
    } else {
        quarter
    };
    smaller(wanted, smaller(params.n_full_scores as nat, documents))
}

/// The document ordinals of hits.
pub open spec fn ordinals(hits: Seq<SearchHit>) -> Seq<u32> {
    hits.map_values(|hit: SearchHit| hit.document_ordinal)
}

/// Every scored document belongs to the segment.
pub open spec fn scored_in(segment: Segment, scored: Seq<ScoredDocument>) -> bool {
    forall|i: int|
        0 <= i < scored.len() ==> (#[trigger] scored[i]).document_ordinal < segment.documents()
}

impl PlaidIndex {
    /// Checks that a query matrix fits the segment.
    pub(crate) fn validate_query(&self, query: &Matrix) -> (result: Result<()>)
        ensures
            match result {
                Ok(()) => query_fault(self@, query@) is None,
                Err(error) => query_fault(self@, query@) == Some(error@),
            },
    {
        if query.rows() == 0 || query.columns() != self.dimension() {
            let mut text = text_three_numbers(
                "query shape must be [positive, ",
                self.dimension() as u64,
                "], got [",
                query.rows() as u64,
                ", ",
                query.columns() as u64,
            );
            text.push_str("]");
            return Err(Error::InvalidInput(text));
        }
        if !scalar::all_finite(query.values().as_slice()) {
            return Err(Error::invalid("query values must be finite"));
        }
        Ok(())
    }

    /// Checks a query and the controls of a search.
    pub fn validate_search(&self, query: &Matrix, params: &PlaidSearchParams) -> (result: Result<()>)
        ensures
            match result {
                Ok(()) => search_fault(self@, query@, *params) is None,
                Err(error) => search_fault(self@, query@, *params) == Some(error@),
            },
    {
        self.validate_query(query)?;
        if params.n_ivf_probe == 0 || params.n_full_scores == 0 || params.top_k == 0 {
            return Err(
                Error::InvalidInput(
                    text_three_numbers(
                        "n_ivf_probe, n_full_scores, and top_k must be positive, got ",
                        params.n_ivf_probe as u64,
                        ", ",
                        params.n_full_scores as u64,
                        ", ",
                        params.top_k as u64,
                    ),
                ),
            );
        }
        if let Some(threshold) = params.centroid_score_threshold {
            if !scalar::is_finite(threshold) {
                return Err(Error::invalid("centroid_score_threshold must be finite when present"));
            }
        }
        Ok(())
    }

    /// Adds the visible documents of one centroid's postings.
    fn expand_centroid<E: Eligibility>(
        &self,
        centroid: u32,
        eligibility: &E,
        found: &mut RoaringBitmap,
        stats: &mut PlaidSearchStats,
    )
        requires
            centroid < self@.centroids.rows,
        ensures
            bitmap_values(*final(found)) == bitmap_values(*old(found)).union(
                Set::new(
                    |document: u32|
                        self@.posted(centroid as int).contains(document) && visible(
                            self@,
                            *eligibility,
                        )(document),
                ),
            ),
            *final(stats) == (PlaidSearchStats {
                posting_entries_read: capped(
                    old(stats).posting_entries_read as nat + self@.posted(centroid as int).len(),
                ),
                posting_entries_eligible: capped(
                    old(stats).posting_entries_eligible as nat + count_where(
                        self@.posted(centroid as int),
                        visible(self@, *eligibility),
                    ),
                ),
                ..*old(stats)
            }),
    {
        proof {
            use_type_invariant(self);
        }
        let (start, end) = match self.posting_range(centroid) {
            Ok(range) => range,
            Err(_) => {
                return ;
            },
        };
        let ghost list = self@.posted(centroid as int);
        let ghost wanted = visible(self@, *eligibility);
        let ghost before = bitmap_values(*found);
        let parts = self.parts();
        stats.posting_entries_read = stats.posting_entries_read.saturating_add(
            (end - start) as u64,
        );
        let ghost eligible_before = stats.posting_entries_eligible as nat;
        assert(list.take(0) =~= Seq::<u32>::empty());
        assert(before =~= before.union(
            Set::new(|document: u32| list.take(0).contains(document) && wanted(document)),
        ));
        let mut position: usize = start;
        while position < end
            invariant
                self@.wf(),
                parts@ == self@,
                list == self@.posted(centroid as int),
                wanted == visible(self@, *eligibility),
                start <= position <= end <= self@.postings.len(),
                list == self@.postings.subrange(start as int, end as int),
                bitmap_values(*found) == before.union(
                    Set::new(
                        |document: u32|
                            list.take(position - start).contains(document) && wanted(document),
                    ),
                ),
                *stats == (PlaidSearchStats {
                    posting_entries_read: capped(
                        old(stats).posting_entries_read as nat + list.len(),
                    ),
                    posting_entries_eligible: capped(
                        eligible_before + count_where(list.take(position - start), wanted),
                    ),
                    ..*old(stats)
                }),
                eligible_before == old(stats).posting_entries_eligible,
            decreases end - position,
        {
            let document: u32 = parts.postings[position];
            assert(self@.postings[position as int] < self@.documents());
            let row_address: u64 = parts.row_addresses[document as usize];
            let ghost shorter = list.take(position - start);
            let ghost longer = list.take(position + 1 - start);
            let ghost earlier = bitmap_values(*found);
            assert(longer =~= shorter.push(document));
            assert(longer.drop_last() =~= shorter);
            if eligibility.includes(document, row_address) {
                stats.posting_entries_eligible = stats.posting_entries_eligible.saturating_add(1);
                found.insert(document);
            }
            proof {
                assert forall|other: u32| #[trigger] bitmap_values(*found).contains(other) <==>
                    before.contains(other) || longer.contains(other) && wanted(other) by {
                    if shorter.contains(other) {
                        let p = choose|p: int| 0 <= p < shorter.len() && shorter[p] == other;
                        assert(longer[p] == other);
                    }
                    if longer.contains(other) && other != document {
                        let p = choose|p: int| 0 <= p < longer.len() && longer[p] == other;
                        assert(shorter[p] == other);
                    }
                    assert(longer[longer.len() - 1] == document);
                }
                assert(bitmap_values(*found) =~= before.union(
                    Set::new(|other: u32| longer.contains(other) && wanted(other)),
                ));
            }
            position += 1;
        }
        assert(list.take(position - start) =~= list);
        assert(bitmap_values(*found) =~= before.union(
            Set::new(|document: u32| list.contains(document) && wanted(document)),
        ));
    }

    /// Adds the visible documents of some centroids' postings.
    pub(crate) fn expand_postings<E: Eligibility>(
        &self,
        centroids: &Vec<u32>,
        eligibility: &E,
        found: &mut RoaringBitmap,
        stats: &mut PlaidSearchStats,
    )
        requires
            forall|i: int|
                0 <= i < centroids@.len() ==> #[trigger] centroids@[i] < self@.centroids.rows,
        ensures
            bitmap_values(*final(found)) == bitmap_values(*old(found)).union(
                candidates(self@, centroids@, visible(self@, *eligibility)),
            ),
            *final(stats) == (PlaidSearchStats {
                posting_entries_read: capped(
                    old(stats).posting_entries_read as nat + entries_read(self@, centroids@),
                ),
                posting_entries_eligible: capped(
                    old(stats).posting_entries_eligible as nat + entries_eligible(
                        self@,
                        centroids@,
                        visible(self@, *eligibility),
                    ),
                ),
                ..*old(stats)
            }),
    {
        let ghost wanted = visible(self@, *eligibility);
        let ghost before = bitmap_values(*found);
        assert(centroids@.take(0) =~= Seq::<u32>::empty());
        assert(before =~= before.union(Set::<u32>::empty()));
        let mut i: usize = 0;
        while i < centroids.len()
            invariant
                forall|i: int|
                    0 <= i < centroids@.len() ==> #[trigger] centroids@[i] < self@.centroids.rows,
                wanted == visible(self@, *eligibility),
                i <= centroids@.len(),
                bitmap_values(*found) == before.union(
                    candidates(self@, centroids@.take(i as int), wanted),
                ),
                *stats == (PlaidSearchStats {
                    posting_entries_read: capped(
                        old(stats).posting_entries_read as nat + entries_read(
                            self@,
                            centroids@.take(i as int),
                        ),
                    ),
                    posting_entries_eligible: capped(
                        old(stats).posting_entries_eligible as nat + entries_eligible(
                            self@,
                            centroids@.take(i as int),
                            wanted,
                        ),
                    ),
                    ..*old(stats)
                }),
            decreases centroids@.len() - i,
        {
            let ghost shorter = centroids@.take(i as int);
            let ghost longer = centroids@.take(i + 1);
            assert(longer.drop_last() =~= shorter);
            self.expand_centroid(centroids[i], eligibility, found, stats);
            assert(bitmap_values(*found) =~= before.union(candidates(self@, longer, wanted)));
            i += 1;
        }
        assert(centroids@.take(i as int) =~= centroids@);
    }
}

/// The values of a finite set in ascending order.
pub open spec fn in_order(values: Set<u32>) -> Seq<u32> {
    choose|list: Seq<u32>| strictly_increasing(list) && #[trigger] list.to_set() == values
}

/// Only one strictly increasing sequence holds the values of a set.
pub proof fn increasing_sequence_is_unique(left: Seq<u32>, right: Seq<u32>)
    requires
        strictly_increasing(left),
        strictly_increasing(right),
        left.to_set() == right.to_set(),
    ensures
        left == right,
    decreases left.len(),
{
    assert forall|value: u32| left.contains(value) <==> right.contains(value) by {
        assert(left.to_set().contains(value) <==> left.contains(value));
        assert(right.to_set().contains(value) <==> right.contains(value));
    }
    if left.len() == 0 {
        if right.len() > 0 {
            assert(right.contains(right[0]));
        }
        assert(left =~= right);
    } else {
        assert(left.contains(left.last()));
        let l = choose|l: int| 0 <= l < right.len() && right[l] == left.last();
        assert(right.contains(right.last()));
        let r = choose|r: int| 0 <= r < left.len() && left[r] == right.last();
        if l < right.len() - 1 {
            assert(right[l] < right[right.len() - 1]);
        }
        if r < left.len() - 1 {
            assert(left[r] < left[left.len() - 1]);
        }
        assert(left.last() == right.last());
        let a = left.drop_last();
        let b = right.drop_last();
        assert forall|value: u32| #[trigger] a.to_set().contains(value) <==> b.to_set().contains(
            value,
        ) by {
            if a.contains(value) {
                let i = choose|i: int| 0 <= i < a.len() && a[i] == value;
                assert(left[i] == value);
                assert(left[i] < left[left.len() - 1]);
                assert(left.contains(value));
                let j = choose|j: int| 0 <= j < right.len() && right[j] == value;
                assert(b[j] == value);
            }
            if b.contains(value) {
                let i = choose|i: int| 0 <= i < b.len() && b[i] == value;
                assert(right[i] == value);
                assert(right[i] < right[right.len() - 1]);
                assert(right.contains(value));
                let j = choose|j: int| 0 <= j < left.len() && left[j] == value;
                assert(a[j] == value);
            }
        }
        assert(a.to_set() =~= b.to_set());
        increasing_sequence_is_unique(a, b);
        assert(left =~= a.push(left.last()));
        assert(right =~= b.push(right.last()));
    }
}

/// A strictly increasing list is the ordered list of its values.
pub proof fn in_order_of_increasing(list: Seq<u32>)
    requires
        strictly_increasing(list),
    ensures
        in_order(list.to_set()) == list,
{
    let chosen = in_order(list.to_set());
    assert(strictly_increasing(list) && list.to_set() == list.to_set());
    increasing_sequence_is_unique(chosen, list);
}

/// A strictly increasing list has as many entries as values.
pub proof fn increasing_has_set_len(list: Seq<u32>)
    requires
        strictly_increasing(list),
    ensures
        list.to_set().len() == list.len(),
{
    assert(list.no_duplicates()) by {
        assert forall|i: int, j: int| 0 <= i < list.len() && 0 <= j < list.len() && i != j implies list[i]
            != list[j] by {
            if i < j {
                assert(list[i] < list[j]);
            } else {
                assert(list[j] < list[i]);
            }
        }
    }
    list.unique_seq_to_set();
}

/// The values of a set below a bound can be listed in ascending order.
proof fn listing_below(values: Set<u32>, bound: nat) -> (list: Seq<u32>)
    requires
        bound <= 0x1_0000_0000,
    ensures
        strictly_increasing(list),
        forall|value: u32| #[trigger] list.contains(value) <==> values.contains(value) && value < bound,
    decreases bound,
{
    if bound == 0 {
        Seq::empty()
    } else {
        let last = (bound - 1) as u32;
        let shorter = listing_below(values, last as nat);
        if values.contains(last) {
            let list = shorter.push(last);
            assert forall|value: u32| #[trigger] list.contains(value) <==> values.contains(value)
                && value < bound by {
                if shorter.contains(value) {
                    let i = choose|i: int| 0 <= i < shorter.len() && shorter[i] == value;
                    assert(list[i] == value);
                }
                if list.contains(value) {
                    let i = choose|i: int| 0 <= i < list.len() && list[i] == value;
                    if i < shorter.len() {
                        assert(shorter.contains(value));
                    }
                }
                assert(list[shorter.len() as int] == last);
            }
            assert forall|i: int, j: int| 0 <= i < j < list.len() implies #[trigger] list[i]
                < #[trigger] list[j] by {
                assert(shorter.contains(list[i]));
            }
            list
        } else {
            shorter
        }
    }
}

/// Every set of 32-bit values has an ordered list.
pub proof fn in_order_lists_the_set(values: Set<u32>)
    ensures
        strictly_increasing(in_order(values)),
        in_order(values).to_set() == values,
        forall|value: u32| #[trigger] in_order(values).contains(value) <==> values.contains(value),
{
    let list = listing_below(values, 0x1_0000_0000);
    assert(list.to_set() =~= values);
    in_order_of_increasing(list);
}

/// A search only ever considers visible documents that a probed centroid posts.
pub proof fn probed_documents_are_visible<E: Eligibility>(
    segment: Segment,
    scores: Grid,
    params: PlaidSearchParams,
    eligibility: E,
    document: u32,
)
    requires
        probed_documents(segment, scores, params, eligibility).contains(document),
    ensures
        eligibility.admits(document, segment.row_addresses[document as int]),
        exists|centroid: u32|
            probed_centroids(scores, params).contains(centroid) && #[trigger] segment.posted(
                centroid as int,
            ).contains(document),
{
    let centroids = probed_centroids(scores, params);
    let wanted = visible(segment, eligibility);
    in_order_lists_the_set(candidates(segment, centroids, wanted));
    candidates_are_posted_and_visible(segment, centroids, wanted, document);
    let i = choose|i: int|
        0 <= i < centroids.len() && #[trigger] segment.posted(centroids[i] as int).contains(
            document,
        );
    assert(centroids.contains(centroids[i]));
    assert(segment.posted(centroids[i] as int).contains(document));
}

/// The centroids that a search over all centroids probes, in ascending order.
pub open spec fn probed_centroids(scores: Grid, params: PlaidSearchParams) -> Seq<u32> {
    in_order(
        probes(
            scores,
            all_centroids(scores.columns),
            params.n_ivf_probe as nat,
            params.centroid_score_threshold,
            scores.rows,
        ),
    )
}

/// The visible documents posted by the probed centroids, in ascending order.
pub open spec fn probed_documents<E: Eligibility>(
    segment: Segment,
    scores: Grid,
    params: PlaidSearchParams,
    eligibility: E,
) -> Seq<u32> {
    in_order(
        candidates(segment, probed_centroids(scores, params), visible(segment, eligibility)),
    )
}

impl PlaidIndex {
    /// Selects centroids from the similarities of query tokens to centroids and
    /// expands their postings into candidate documents.
    pub fn probe<E: Eligibility>(
        &self,
        query_centroid_scores: &Matrix,
        params: &PlaidSearchParams,
        eligibility: &E,
        stats: &mut PlaidSearchStats,
    ) -> (result: Vec<u32>)
        requires
            query_centroid_scores@.columns == self@.centroids.rows,
            self@.centroids.rows <= 0x1_0000_0000,
        ensures
            result@ == probed_documents(self@, query_centroid_scores@, *params, *eligibility),
            strictly_increasing(result@),
            result@.to_set() == candidates(
                self@,
                probed_centroids(query_centroid_scores@, *params),
                visible(self@, *eligibility),
            ),
            forall|i: int| 0 <= i < result@.len() ==> #[trigger] result@[i] < self@.documents(),
            ({
                let centroids = probed_centroids(query_centroid_scores@, *params);
                *final(stats) == PlaidSearchStats {
                    centroids_probed: centroids.len() as u64,
                    posting_entries_read: capped(
                        old(stats).posting_entries_read as nat + entries_read(self@, centroids),
                    ),
                    posting_entries_eligible: capped(
                        old(stats).posting_entries_eligible as nat + entries_eligible(
                            self@,
                            centroids,
                            visible(self@, *eligibility),
                        ),
                    ),
                    candidate_documents: result@.len() as u64,
                    ..*old(stats)
                }
            }),
    {
        let allowed = every_centroid(query_centroid_scores.columns());
        let selected = select_centroids(
            query_centroid_scores,
            &allowed,
            params.n_ivf_probe,
            params.centroid_score_threshold,
        );
        let centroids = bitmap_to_vec(&selected);
        proof {
            in_order_of_increasing(centroids@);
            increasing_has_set_len(centroids@);
            assert forall|i: int| 0 <= i < centroids@.len() implies #[trigger] centroids@[i]
                < self@.centroids.rows by {
                assert(centroids@.to_set().contains(centroids@[i]));
                probes_are_best_allowed(
                    query_centroid_scores@,
                    allowed@,
                    params.n_ivf_probe as nat,
                    params.centroid_score_threshold,
                    query_centroid_scores@.rows,
                    centroids@[i],
                );
            }
        }
        stats.centroids_probed = selected.len();
        let mut found = RoaringBitmap::new();
        self.expand_postings(&centroids, eligibility, &mut found, stats);
        let documents = bitmap_to_vec(&found);
        stats.candidate_documents = found.len();
        proof {
            use_type_invariant(self);
            let wanted = visible(self@, *eligibility);
            assert(bitmap_values(found) =~= candidates(self@, centroids@, wanted));
            in_order_of_increasing(documents@);
            increasing_has_set_len(documents@);
            assert forall|i: int| 0 <= i < documents@.len() implies #[trigger] documents@[i]
                < self@.documents() by {
                assert(documents@.to_set().contains(documents@[i]));
                candidates_are_posted_and_visible(self@, centroids@, wanted, documents@[i]);
                let c = choose|c: int|
                    0 <= c < centroids@.len() && #[trigger] self@.posted(
                        centroids@[c] as int,
                    ).contains(documents@[i]);
                posted_documents_exist(self@, centroids@[c], documents@[i]);
            }
        }
        documents
    }

    /// The terms of one document's code-only score.
    pub fn approximate_terms(&self, query_centroid_scores: &Matrix, document_ordinal: u32) -> (result:
        Result<Vec<u32>>)
        requires
            query_centroid_scores@.columns == self@.centroids.rows,
        ensures
            match result {
                Ok(terms) => self@.ordinal_fault(document_ordinal) is None && terms@ == Seq::new(
                    query_centroid_scores@.rows,
                    |token: int|
                        top_similarity(
                            code_similarities(
                                query_centroid_scores@.row(token),
                                self@.codes_of(document_ordinal as int),
                            ),
                        ),
                ),
                Err(error) => self@.ordinal_fault(document_ordinal) == Some(error@),
            },
    {
        let (start, end) = self.document_token_range(document_ordinal)?;
        proof {
            use_type_invariant(self);
        }
        let codes = vstd::slice::slice_subrange(self.parts().token_codes.as_slice(), start, end);
        assert forall|i: int| 0 <= i < codes@.len() implies #[trigger] codes@[i]
            < self@.centroids.rows by {
            assert(codes@[i] == self@.token_codes[start + i]);
        }
        Ok(approximate_score(query_centroid_scores, codes))
    }

    /// Ranks scored documents: higher scores first, equal scores by ascending
    /// row address.
    pub fn rank(&self, scored: &Vec<ScoredDocument>) -> (result: Vec<SearchHit>)
        requires
            scored_in(self@, scored@),
        ensures
            result@ == ranked(self@, scored@),
            result@.len() == scored@.len(),
    {
        let addresses = self.row_addresses();
        let mut hits: Vec<SearchHit> = Vec::new();
        let ghost all = scored@.map_values(|one: ScoredDocument| hit_of(self@, one));
        let mut i: usize = 0;
        while i < scored.len()
            invariant
                scored_in(self@, scored@),
                addresses@ == self@.row_addresses,
                all == scored@.map_values(|one: ScoredDocument| hit_of(self@, one)),
                i <= scored@.len(),
                hits@ == all.take(i as int),
            decreases scored@.len() - i,
        {
            let one = scored[i];
            assert(scored@[i as int].document_ordinal < self@.documents());
            hits.push(
                SearchHit {
                    document_ordinal: one.document_ordinal,
                    row_address: addresses[one.document_ordinal as usize],
                    score: one.score,
                },
            );
            i += 1;
            assert(hits@ =~= all.take(i as int));
        }
        assert(all.take(i as int) =~= all);
        proof {
            ascending_is_sorted_permutation(hits@);
        }
        sort(&hits)
    }

    /// Chooses from approximately scored documents those that are scored
    /// exactly, best first.
    pub fn shortlist(
        &self,
        approximate: &Vec<ScoredDocument>,
        params: &PlaidSearchParams,
        stats: &mut PlaidSearchStats,
    ) -> (result: Vec<u32>)
        requires
            scored_in(self@, approximate@),
        ensures
            result@ == ordinals(
                ranked(self@, approximate@).take(exact_count(*params, approximate@.len()) as int),
            ),
            *final(stats) == (PlaidSearchStats {
                approximate_documents: approximate@.len() as u64,
                ..*old(stats)
            }),
    {
        stats.approximate_documents = approximate.len() as u64;
        let mut hits = self.rank(approximate);
        let budget: usize = if params.n_full_scores < hits.len() {
            params.n_full_scores
        } else {
            hits.len()
        };
        hits.truncate(budget);
        let quarter: usize = params.n_full_scores / 4;
        let wanted: usize = if quarter < params.top_k {
            params.top_k
        } else {
            quarter
        };
        let count: usize = if wanted < hits.len() {
            wanted
        } else {
            hits.len()
        };
        let ghost all = ranked(self@, approximate@);
        let mut documents: Vec<u32> = Vec::new();
        let mut i: usize = 0;
        while i < count
            invariant
                i <= count <= hits@.len(),
                hits@ == all.take(budget as int),
                documents@ == ordinals(all.take(i as int)),
                budget <= all.len(),
            decreases count - i,
        {
            documents.push(hits[i].document_ordinal);
            i += 1;
            assert(documents@ =~= ordinals(all.take(i as int)));
        }
        documents
    }

    /// Ranks exactly scored documents and keeps the best.
    pub fn finish_search(
        &self,
        exact: &Vec<ScoredDocument>,
        params: &PlaidSearchParams,
        stats: &mut PlaidSearchStats,
    ) -> (result: Vec<SearchHit>)
        requires
            scored_in(self@, exact@),
        ensures
            result@ == ranked(self@, exact@).take(
                smaller(params.top_k as nat, exact@.len()) as int,
            ),
            *final(stats) == (PlaidSearchStats {
                exact_documents: exact@.len() as u64,
                ..*old(stats)
            }),
    {
        stats.exact_documents = exact.len() as u64;
        let mut hits = self.rank(exact);
        let count: usize = if params.top_k < hits.len() {
            params.top_k
        } else {
            hits.len()
        };
        hits.truncate(count);
        hits
    }
}

/// Posted documents belong to the segment.
pub proof fn posted_documents_exist(segment: Segment, centroid: u32, document: u32)
    requires
        segment.wf(),
        centroid < segment.centroids.rows,
        segment.posted(centroid as int).contains(document),
    ensures
        document < segment.documents(),
{
    let list = segment.posted(centroid as int);
    let start = segment.posting_offsets[centroid as int] as int;
    let end = segment.posting_offsets[centroid + 1] as int;
    assert(segment.posting_offsets[0] <= segment.posting_offsets[centroid as int]);
    assert(segment.posting_offsets[centroid as int] <= segment.posting_offsets[centroid + 1]);
    assert(segment.posting_offsets[centroid + 1]
        <= segment.posting_offsets[segment.centroids.rows as int]);
    let i = choose|i: int| 0 <= i < list.len() && list[i] == document;
    assert(segment.postings[start + i] == document);
}

/// Without a threshold a query token probes the allowed centroids that are most
/// similar to it. A probed centroid is at least as similar as an allowed one that
/// is not probed, and of equally similar centroids the one with the smaller number
/// is probed first. A threshold leaves out the centroids that do not reach it, and
/// no others.
pub proof fn probed_centroids_are_the_most_similar(
    row: Seq<u32>,
    allowed: Seq<u32>,
    count: nat,
    threshold: Option<u32>,
    centroid: u32,
    other: u32,
)
    requires
        allowed.contains(other),
        !token_probes(row, allowed, count, None).contains(other),
        token_probes(row, allowed, count, threshold).contains(centroid),
    ensures
        allowed.contains(centroid),
        ({
            ||| scalar::total_position(row[centroid as int]) > scalar::total_position(
                row[other as int],
            )
            ||| row[centroid as int] == row[other as int] && centroid < other
        }),
        threshold is Some ==> scalar::at_least(row[centroid as int], threshold->0),
{
    let all = scored_centroids(row, allowed);
    let list = ascending(all);
    let best = best_centroids(row, allowed, count);
    let own = RankedCentroid { score: row[centroid as int], centroid };
    let left_out = RankedCentroid { score: row[other as int], centroid: other };
    ascending_is_sorted_permutation(all);
    let q = choose|q: int| 0 <= q < best.len() && best[q] == own;
    assert(list[q] == own);
    assert(list.contains(own));
    let place = choose|place: int| 0 <= place < all.len() && all[place] == own;
    assert(allowed[place] == centroid);
    let given = choose|given: int| 0 <= given < allowed.len() && allowed[given] == other;
    assert(all[given] == left_out);
    assert(all.contains(left_out));
    assert(list.contains(left_out));
    let p = choose|p: int| 0 <= p < list.len() && list[p] == left_out;
    if p < best.len() {
        assert(best[p] == left_out);
        assert(best.contains(left_out));
    }
    assert(list[q].before(list[p]));
    assert(own != left_out);
}

/// A threshold decides for every centroid by itself.
pub proof fn thresholds_leave_out_dissimilar_centroids(
    row: Seq<u32>,
    allowed: Seq<u32>,
    count: nat,
    threshold: u32,
    centroid: u32,
)
    ensures
        token_probes(row, allowed, count, Some(threshold)).contains(centroid) <==> token_probes(
            row,
            allowed,
            count,
            None,
        ).contains(centroid) && scalar::at_least(row[centroid as int], threshold),
{
}

/// Without a threshold a query token probes as many centroids as it was told to,
/// or all that are allowed where there are fewer.
pub proof fn tokens_probe_as_many_centroids_as_told(
    row: Seq<u32>,
    allowed: Seq<u32>,
    count: nat,
)
    requires
        allowed.no_duplicates(),
    ensures
        token_probes(row, allowed, count, None).finite(),
        token_probes(row, allowed, count, None).len() == if count < allowed.len() {
            count
        } else {
            allowed.len()
        },
{
    let all = scored_centroids(row, allowed);
    let list = ascending(all);
    let best = best_centroids(row, allowed, count);
    let numbers = best.map_values(|one: RankedCentroid| one.centroid);
    ascending_is_sorted_permutation(all);
    assert forall|i: int, j: int| 0 <= i < all.len() && 0 <= j < all.len() && i != j implies all[i]
        != all[j] by {
        assert(allowed[i] != allowed[j]);
    }
    all.lemma_multiset_has_no_duplicates();
    list.lemma_multiset_has_no_duplicates_conv();
    assert forall|i: int| 0 <= i < list.len() implies (#[trigger] list[i]).score
        == row[list[i].centroid as int] by {
        assert(list.contains(list[i]));
        let k = choose|k: int| 0 <= k < all.len() && all[k] == list[i];
        assert(all[k].score == row[allowed[k] as int]);
    }
    assert forall|i: int, j: int|
        0 <= i < numbers.len() && 0 <= j < numbers.len() && i != j implies numbers[i]
        != numbers[j] by {
        assert(list[i] != list[j]);
    }
    numbers.unique_seq_to_set();
    vstd::seq_lib::seq_to_set_is_finite(numbers);
    assert forall|centroid: u32| #[trigger]
        numbers.to_set().contains(centroid) <==> token_probes(row, allowed, count, None).contains(
            centroid,
        ) by {
        let own = RankedCentroid { score: row[centroid as int], centroid };
        if numbers.contains(centroid) {
            let i = choose|i: int| 0 <= i < numbers.len() && numbers[i] == centroid;
            assert(best[i] == list[i]);
            assert(best[i] == own);
            assert(best.contains(own));
        }
        if best.contains(own) {
            let i = choose|i: int| 0 <= i < best.len() && best[i] == own;
            assert(numbers[i] == centroid);
        }
    }
    assert(numbers.to_set() =~= token_probes(row, allowed, count, None));
}

/// A query probes what any of its tokens probes.
pub proof fn queries_probe_for_every_token(
    scores: Grid,
    allowed: Seq<u32>,
    count: nat,
    threshold: Option<u32>,
    tokens: nat,
    centroid: u32,
)
    ensures
        probes(scores, allowed, count, threshold, tokens).contains(centroid) <==> exists|token: int|
            0 <= token < tokens && #[trigger] token_probes(
                scores.row(token),
                allowed,
                count,
                threshold,
            ).contains(centroid),
    decreases tokens,
{
    if tokens > 0 {
        let fewer = (tokens - 1) as nat;
        queries_probe_for_every_token(scores, allowed, count, threshold, fewer, centroid);
        if probes(scores, allowed, count, threshold, fewer).contains(centroid) {
            let token = choose|token: int|
                0 <= token < fewer && #[trigger] token_probes(
                    scores.row(token),
                    allowed,
                    count,
                    threshold,
                ).contains(centroid);
            assert(token_probes(scores.row(token), allowed, count, threshold).contains(centroid));
        }
        if token_probes(scores.row(tokens - 1), allowed, count, threshold).contains(centroid) {
            assert(0 <= tokens - 1 < tokens);
        }
    }
}

/// Scored documents are ranked by descending score, and at equal scores by
/// ascending row address. Every hit is a scored document, under its own address
/// and with its own score, and every scored document is a hit.
pub proof fn documents_rank_by_score(segment: Segment, scored: Seq<ScoredDocument>)
    ensures
        ({
            let hits = ranked(segment, scored);
            &&& hits.len() == scored.len()
            &&& forall|i: int, j: int|
                0 <= i < j < hits.len() ==> {
                    let left = #[trigger] hits[i];
                    let right = #[trigger] hits[j];
                    ||| scalar::total_position(left.score) > scalar::total_position(right.score)
                    ||| left.score == right.score && left.row_address <= right.row_address
                }
            &&& forall|i: int|
                0 <= i < hits.len() ==> (#[trigger] hits[i]).row_address
                    == segment.row_addresses[hits[i].document_ordinal as int] && scored.contains(
                    (ScoredDocument {
                        document_ordinal: hits[i].document_ordinal,
                        score: hits[i].score,
                    }),
                )
            &&& forall|k: int|
                0 <= k < scored.len() ==> hits.contains(
                    (SearchHit {
                        document_ordinal: (#[trigger] scored[k]).document_ordinal,
                        row_address: segment.row_addresses[scored[k].document_ordinal as int],
                        score: scored[k].score,
                    }),
                )
        }),
{
    let all = scored.map_values(|one: ScoredDocument| hit_of(segment, one));
    let hits = ranked(segment, scored);
    ascending_is_sorted_permutation(all);
    assert forall|i: int, j: int| 0 <= i < j < hits.len() implies {
        let left = #[trigger] hits[i];
        let right = #[trigger] hits[j];
        ||| scalar::total_position(left.score) > scalar::total_position(right.score)
        ||| left.score == right.score && left.row_address <= right.row_address
    } by {
        assert(hits[i].before(hits[j]));
    }
    assert forall|i: int| 0 <= i < hits.len() implies (#[trigger] hits[i]).row_address
        == segment.row_addresses[hits[i].document_ordinal as int] && scored.contains(
        (ScoredDocument { document_ordinal: hits[i].document_ordinal, score: hits[i].score }),
    ) by {
        assert(hits.contains(hits[i]));
        let k = choose|k: int| 0 <= k < all.len() && all[k] == hits[i];
        assert(scored[k] == (ScoredDocument {
            document_ordinal: hits[i].document_ordinal,
            score: hits[i].score,
        }));
    }
    assert forall|k: int| 0 <= k < scored.len() implies hits.contains(
        (SearchHit {
            document_ordinal: (#[trigger] scored[k]).document_ordinal,
            row_address: segment.row_addresses[scored[k].document_ordinal as int],
            score: scored[k].score,
        }),
    ) by {
        assert(all.contains(all[k]));
    }
}

/// How many documents are scored exactly: at least as many as are returned and at
/// least a quarter of the approximate budget, as far as the budget and the
/// documents go, and no more than that.
pub proof fn exact_budgets_cover_the_results(params: PlaidSearchParams, documents: nat)
    ensures
        ({
            let count = exact_count(params, documents);
            &&& count <= documents
            &&& count <= params.n_full_scores
            &&& count < documents && count < params.n_full_scores ==> {
                &&& count >= params.top_k
                &&& 4 * count + 3 >= params.n_full_scores
                &&& count == params.top_k || 4 * count <= params.n_full_scores
            }
            &&& count == documents || count == params.n_full_scores || count == params.top_k || {
                4 * count <= params.n_full_scores < 4 * count + 4
            }
            &&& count <= params.top_k || 4 * count <= params.n_full_scores
        }),
{
}

/// The terms of a score by codes: for each query token the largest similarity with
/// a centroid of the document, or negative infinity where there is none.
pub proof fn largest_similarities_are_attained(row: Seq<u32>, codes: Seq<u32>)
    ensures
        ({
            let term = top_similarity(code_similarities(row, codes));
            &&& forall|i: int|
                0 <= i < codes.len() ==> scalar::total_position(
                    row[#[trigger] codes[i] as int],
                ) <= scalar::total_position(term)
            &&& term == 0xff80_0000u32 || exists|i: int|
                0 <= i < codes.len() && row[#[trigger] codes[i] as int] == term
            &&& scalar::total_position(0xff80_0000) <= scalar::total_position(term)
        }),
{
    let all = code_similarities(row, codes);
    let term = top_similarity(all);
    top_similarity_is_maximum(all);
    assert forall|i: int| 0 <= i < codes.len() implies scalar::total_position(
        row[#[trigger] codes[i] as int],
    ) <= scalar::total_position(term) by {
        assert(all[i] == row[codes[i] as int]);
    }
    if all.contains(term) {
        let i = choose|i: int| 0 <= i < all.len() && all[i] == term;
        assert(row[codes[i] as int] == term);
    }
}

/// Of two numbers the smaller one is neither above, and is one of them. Counts are
/// kept up to the largest 64-bit number.
pub proof fn limits_are_the_smaller_numbers(left: nat, right: nat)
    ensures
        smaller(left, right) <= left,
        smaller(left, right) <= right,
        smaller(left, right) == left || smaller(left, right) == right,
        left <= 0xffff_ffff_ffff_ffff ==> capped(left) == left,
        left > 0xffff_ffff_ffff_ffff ==> capped(left) == 0xffff_ffff_ffff_ffff,
{
}

/// Reading the postings of one more centroid reads each of its entries once, and
/// counts those as eligible whose documents are looked for.
pub proof fn postings_are_counted_once(
    segment: Segment,
    centroids: Seq<u32>,
    centroid: u32,
    wanted: spec_fn(u32) -> bool,
)
    requires
        segment.wf(),
        centroid < segment.centroids.rows,
    ensures
        entries_read(segment, Seq::empty()) == 0,
        entries_eligible(segment, Seq::empty(), wanted) == 0,
        entries_read(segment, centroids.push(centroid)) == entries_read(segment, centroids)
            + segment.posting_offsets[centroid + 1] - segment.posting_offsets[centroid as int],
        entries_eligible(segment, centroids.push(centroid), wanted) == entries_eligible(
            segment,
            centroids,
            wanted,
        ) + segment.postings.subrange(
            segment.posting_offsets[centroid as int] as int,
            segment.posting_offsets[centroid + 1] as int,
        ).filter(wanted).len(),
{
    assert(centroids.push(centroid).drop_last() =~= centroids);
    assert(segment.posting_offsets[centroid as int] <= segment.posting_offsets[centroid + 1]);
    assert(segment.posting_offsets[centroid + 1]
        <= segment.posting_offsets[segment.centroids.rows as int]);
    counting_is_filtering(segment.posted(centroid as int), wanted);
}

proof fn counting_is_filtering(documents: Seq<u32>, wanted: spec_fn(u32) -> bool)
    ensures
        count_where(documents, wanted) == documents.filter(wanted).len(),
    decreases documents.len(),
{
    reveal(Seq::filter);
    if documents.len() > 0 {
        counting_is_filtering(documents.drop_last(), wanted);
    }
}

/// A search is accepted exactly where the query has tokens of the dimension of the
/// segment, all of its values are finite, no budget is zero and the threshold, if
/// there is one, is finite.
pub proof fn accepted_searches_are_complete(
    segment: Segment,
    query: Grid,
    params: PlaidSearchParams,
)
    ensures
        query_fault(segment, query) is None <==> {
            &&& query.rows > 0
            &&& query.columns == segment.centroids.columns
            &&& forall|i: int|
                0 <= i < query.values.len() ==> (#[trigger] query.values[i] as int / 0x80_0000)
                    % 256 != 255
        },
        search_fault(segment, query, params) is None <==> {
            &&& query_fault(segment, query) is None
            &&& params.n_ivf_probe > 0
            &&& params.n_full_scores > 0
            &&& params.top_k > 0
            &&& params.centroid_score_threshold is Some ==> (
            params.centroid_score_threshold->0 as int / 0x80_0000) % 256 != 255
        },
{
    assert forall|bits: u32| #[trigger] scalar::finite(bits) <==> (bits as int / 0x80_0000) % 256
        != 255 by {
        scalar::exponents_tell_finite_numbers(bits);
    }
    if query.finite() {
        assert forall|i: int| 0 <= i < query.values.len() implies (#[trigger] query.values[i] as int
            / 0x80_0000) % 256 != 255 by {
            assert(scalar::finite(query.values[i]));
        }
    }
    if params.centroid_score_threshold is Some {
        scalar::exponents_tell_finite_numbers(params.centroid_score_threshold->0);
    }
}

/// A search probes centroids of the segment, and finds the documents that these
/// post and that may be returned.
pub proof fn searches_find_posted_documents<E: Eligibility>(
    segment: Segment,
    scores: Grid,
    params: PlaidSearchParams,
    eligibility: E,
    document: u32,
)
    ensures
        probed_documents(segment, scores, params, eligibility).contains(document) <==> {
            &&& eligibility.admits(document, segment.row_addresses[document as int])
            &&& exists|centroid: u32|
                probed_centroids(scores, params).contains(centroid) && #[trigger] segment.posted(
                    centroid as int,
                ).contains(document)
        },
        strictly_increasing(probed_documents(segment, scores, params, eligibility)),
        forall|centroid: u32| #[trigger]
            probed_centroids(scores, params).contains(centroid) <==> exists|token: int|
                0 <= token < scores.rows && #[trigger] token_probes(
                    scores.row(token),
                    all_centroids(scores.columns),
                    params.n_ivf_probe as nat,
                    params.centroid_score_threshold,
                ).contains(centroid),
{
    let probed = probed_centroids(scores, params);
    let wanted = visible(segment, eligibility);
    in_order_lists_the_set(candidates(segment, probed, wanted));
    candidates_are_posted_and_visible(segment, probed, wanted, document);
    if exists|centroid: u32|
        probed.contains(centroid) && #[trigger] segment.posted(centroid as int).contains(document) {
        let centroid = choose|centroid: u32|
            probed.contains(centroid) && #[trigger] segment.posted(centroid as int).contains(
                document,
            );
        let i = choose|i: int| 0 <= i < probed.len() && probed[i] == centroid;
        assert(segment.posted(probed[i] as int).contains(document));
    }
    if exists|i: int|
        0 <= i < probed.len() && #[trigger] segment.posted(probed[i] as int).contains(document) {
        let i = choose|i: int|
            0 <= i < probed.len() && #[trigger] segment.posted(probed[i] as int).contains(document);
        assert(probed.contains(probed[i]));
    }
    let allowed = all_centroids(scores.columns);
    let count = params.n_ivf_probe as nat;
    let threshold = params.centroid_score_threshold;
    in_order_lists_the_set(probes(scores, allowed, count, threshold, scores.rows));
    assert forall|centroid: u32| #[trigger] probed.contains(centroid) <==> exists|token: int|
        0 <= token < scores.rows && #[trigger] token_probes(
            scores.row(token),
            allowed,
            count,
            threshold,
        ).contains(centroid) by {
        queries_probe_for_every_token(scores, allowed, count, threshold, scores.rows, centroid);
    }
}

/// Without a plan every centroid may be probed, each once and in order.
pub proof fn all_centroids_are_listed_once(count: nat, place: int)
    requires
        count <= 0x1_0000_0000,
        0 <= place < count,
    ensures
        all_centroids(count).len() == count,
        all_centroids(count)[place] == place,
{
}

/// A search starts with nothing counted.
pub proof fn statistics_start_at_zero()
    ensures
        no_stats().centroid_probe_nanos == 0,
        no_stats().centroids_probed == 0,
        no_stats().postings_nanos == 0,
        no_stats().posting_entries_read == 0,
        no_stats().posting_entries_eligible == 0,
        no_stats().candidate_documents == 0,
        no_stats().approximate_score_nanos == 0,
        no_stats().approximate_documents == 0,
        no_stats().exact_score_nanos == 0,
        no_stats().exact_documents == 0,
        no_stats().sort_nanos == 0,
        no_stats().total_nanos == 0,
        no_stats().eligible_centroid_selection_nanos == 0,
        no_stats().probe_rounds == 0,
        no_stats().probe_retries == 0,
        no_stats().configured_probes == 0,
        no_stats().final_nprobe == 0,
        no_stats().incremental_centroids_reused == 0,
{
}

} // verus!
