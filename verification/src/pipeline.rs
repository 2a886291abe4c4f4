//! Searches as a dialogue.
//!
//! Scores are computed outside: a search hands out what to score next, takes
//! the scores back and goes on, until it hands out the ranked hits.

use crate::adaptive::{
    adaptive_documents, document_len, ordinals_fault, plan_view, probing_of, stats_after_rounds,
    CentroidPlan, EligibleCentroidDecision, EligibleCentroidPlan,
};
use crate::eligibility::Eligibility;
use crate::error::{Error, Fault, Result};
use crate::index::{PlaidIndex, Segment};
use crate::matrix::{Grid, Matrix};
use crate::postings::strictly_increasing;
use crate::scalar;
use crate::search::{
    capped, documents_rank_by_score, entries_eligible, entries_read, exact_count, hit_of, ordinals,
    probed_centroids, probed_documents, probed_documents_are_visible, query_fault, ranked,
    scored_in, search_fault, smaller, visible, PlaidSearchParams, PlaidSearchStats, ScoredDocument,
    SearchHit,
};
use crate::sort::{ascending_ignores_arrival_order, ascending_is_sorted_permutation, TotalOrder};
use vstd::prelude::*;

verus! {

/// What a search is told.
#[derive(Clone, Copy, Debug)]
pub enum SearchEvent<'a> {
    /// The search begins.
    Started,
    /// The similarity of every query token to every centroid, one row for each
    /// query token.
    CentroidsScored(&'a Matrix),
    /// The code-only scores of the candidates.
    CandidatesScored(&'a Vec<ScoredDocument>),
    /// The scores of documents after residual reconstruction.
    DocumentsScored(&'a Vec<ScoredDocument>),
}

/// What a search asks for.
#[derive(Debug)]
pub enum SearchAction {
    /// Score every query token against every centroid.
    ScoreCentroids,
    /// Score these documents from their token codes.
    ScoreCandidates(Vec<u32>),
    /// Score these documents after residual reconstruction.
    ScoreDocuments(Vec<u32>),
    /// Nothing more: these are the hits, best first.
    Finished(Vec<SearchHit>),
}

/// What a search asks for, as a mathematical object.
pub enum Request {
    ScoreCentroids,
    ScoreCandidates(Seq<u32>),
    ScoreDocuments(Seq<u32>),
    Finished(Seq<SearchHit>),
}

impl View for SearchAction {
    type V = Request;

    open spec fn view(&self) -> Request {
        match self {
            SearchAction::ScoreCentroids => Request::ScoreCentroids,
            SearchAction::ScoreCandidates(documents) => Request::ScoreCandidates(documents@),
            SearchAction::ScoreDocuments(documents) => Request::ScoreDocuments(documents@),
            SearchAction::Finished(hits) => Request::Finished(hits@),
        }
    }
}

/// The scores that an event brings belong to the segment.
pub open spec fn event_fits(segment: Segment, event: SearchEvent) -> bool {
    match event {
        SearchEvent::Started => true,
        SearchEvent::CentroidsScored(scores) => scores@.columns == segment.centroids.rows
            && segment.centroids.rows <= 0x1_0000_0000,
        SearchEvent::CandidatesScored(scored) => scored_in(segment, scored@),
        SearchEvent::DocumentsScored(scored) => scored_in(segment, scored@),
    }
}

/// The documents that are scored exactly once the candidates are scored.
pub open spec fn shortlisted(
    segment: Segment,
    approximate: Seq<ScoredDocument>,
    params: PlaidSearchParams,
) -> Seq<u32> {
    ordinals(ranked(segment, approximate).take(exact_count(params, approximate.len()) as int))
}

/// The hits once documents are scored exactly.
pub open spec fn final_hits(
    segment: Segment,
    exact: Seq<ScoredDocument>,
    params: PlaidSearchParams,
) -> Seq<SearchHit> {
    ranked(segment, exact).take(smaller(params.top_k as nat, exact.len()) as int)
}

/// The fault of a plan that another index instance made.
pub open spec fn foreign_plan() -> Fault {
    Fault::InvalidInput("eligible-centroid plan does not belong to this PLAID index"@)
}

/// Why an adaptive search is refused.
pub open spec fn adaptive_fault(
    segment: Segment,
    identity: u64,
    query: Grid,
    params: PlaidSearchParams,
    plan: Option<CentroidPlan>,
) -> Option<Fault> {
    if search_fault(segment, query, params) is Some {
        search_fault(segment, query, params)
    } else if plan is Some && !(plan->0).belongs(identity, segment.centroids.rows) {
        Some(foreign_plan())
    } else {
        None
    }
}

/// The plan says that no document is eligible.
pub open spec fn plans_nothing(plan: Option<CentroidPlan>) -> bool {
    plan is Some && (plan->0).decision == EligibleCentroidDecision::Empty
}

impl PlaidIndex {
    /// Runs centroid probing, posting expansion, code-only scoring, and
    /// quantized-residual MaxSim reranking for one multi-vector query.
    pub fn search<E: Eligibility>(
        &self,
        query: &Matrix,
        params: &PlaidSearchParams,
        eligibility: &E,
        event: SearchEvent,
        stats: &mut PlaidSearchStats,
    ) -> (result: Result<SearchAction>)
        requires
            event_fits(self@, event),
        ensures
            match event {
                SearchEvent::Started => *final(stats) == *old(stats) && match result {
                    Ok(action) => search_fault(self@, query@, *params) is None && action@
                        == Request::ScoreCentroids,
                    Err(error) => search_fault(self@, query@, *params) == Some(error@),
                },
                SearchEvent::CentroidsScored(scores) => {
                    let centroids = probed_centroids(scores@, *params);
                    let documents = probed_documents(self@, scores@, *params, *eligibility);
                    &&& result is Ok
                    &&& result->Ok_0@ == Request::ScoreCandidates(documents)
                    &&& *final(stats) == PlaidSearchStats {
                        centroids_probed: centroids.len() as u64,
                        posting_entries_read: capped(
                            old(stats).posting_entries_read as nat + entries_read(self@, centroids),
                        ),
                        posting_entries_eligible: capped(
                            old(stats).posting_entries_eligible as nat + entries_eligible(
                                self@,
                                centroids,
                                visible(self@, *eligibility),
                            ),
                        ),
                        candidate_documents: documents.len() as u64,
                        ..*old(stats)
                    }
                },
                SearchEvent::CandidatesScored(scored) => {
                    &&& result is Ok
                    &&& result->Ok_0@ == Request::ScoreDocuments(
                        shortlisted(self@, scored@, *params),
                    )
                    &&& *final(stats) == PlaidSearchStats {
                        approximate_documents: scored@.len() as u64,
                        ..*old(stats)
                    }
                },
                SearchEvent::DocumentsScored(scored) => {
                    &&& result is Ok
                    &&& result->Ok_0@ == Request::Finished(final_hits(self@, scored@, *params))
                    &&& *final(stats) == PlaidSearchStats {
                        exact_documents: scored@.len() as u64,
                        ..*old(stats)
                    }
                },
            },
    {
        match event {
            SearchEvent::Started => {
                self.validate_search(query, params)?;
                Ok(SearchAction::ScoreCentroids)
            },
            SearchEvent::CentroidsScored(scores) => Ok(
                SearchAction::ScoreCandidates(self.probe(scores, params, eligibility, stats)),
            ),
            SearchEvent::CandidatesScored(scored) => Ok(
                SearchAction::ScoreDocuments(self.shortlist(scored, params, stats)),
            ),
            SearchEvent::DocumentsScored(scored) => Ok(
                SearchAction::Finished(self.finish_search(scored, params, stats)),
            ),
        }
    }

    /// Searches with further probing rounds where the first does not find enough
    /// documents, and only among the centroids of a plan where it has any.
    pub fn search_adaptive<E: Eligibility>(
        &self,
        query: &Matrix,
        params: &PlaidSearchParams,
        maximum_nprobes: usize,
        desired_candidates: usize,
        eligibility: &E,
        plan: Option<&EligibleCentroidPlan>,
        event: SearchEvent,
        stats: &mut PlaidSearchStats,
    ) -> (result: Result<SearchAction>)
        requires
            event_fits(self@, event),
            event is CentroidsScored ==> adaptive_fault(
                self@,
                self.identity(),
                query@,
                *params,
                plan_view(plan),
            ) is None,
        ensures
            match event {
                SearchEvent::Started => {
                    let fault = adaptive_fault(
                        self@,
                        self.identity(),
                        query@,
                        *params,
                        plan_view(plan),
                    );
                    &&& *final(stats) == *old(stats)
                    &&& match result {
                        Ok(action) => fault is None && action@ == if plans_nothing(
                            plan_view(plan),
                        ) {
                            Request::Finished(Seq::empty())
                        } else {
                            Request::ScoreCentroids
                        },
                        Err(error) => fault == Some(error@),
                    }
                },
                SearchEvent::CentroidsScored(scores) => {
                    let probing = probing_of(
                        self@,
                        scores@,
                        *params,
                        maximum_nprobes as nat,
                        desired_candidates as nat,
                        *eligibility,
                        plan_view(plan),
                    );
                    &&& result is Ok
                    &&& result->Ok_0@ == Request::ScoreCandidates(
                        adaptive_documents(probing, params.n_ivf_probe as nat),
                    )
                    &&& *final(stats) == stats_after_rounds(
                        *old(stats),
                        probing,
                        params.n_ivf_probe as nat,
                    )
                },
                SearchEvent::CandidatesScored(scored) => {
                    &&& result is Ok
                    &&& result->Ok_0@ == Request::ScoreDocuments(
                        shortlisted(self@, scored@, *params),
                    )
                    &&& *final(stats) == PlaidSearchStats {
                        approximate_documents: scored@.len() as u64,
                        ..*old(stats)
                    }
                },
                SearchEvent::DocumentsScored(scored) => {
                    &&& result is Ok
                    &&& result->Ok_0@ == Request::Finished(final_hits(self@, scored@, *params))
                    &&& *final(stats) == PlaidSearchStats {
                        exact_documents: scored@.len() as u64,
                        ..*old(stats)
                    }
                },
            },
    {
        match event {
            SearchEvent::Started => {
                self.validate_search(query, params)?;
                if let Some(plan) = plan {
                    if !plan.belongs_to(self) {
                        return Err(
                            Error::invalid(
                                "eligible-centroid plan does not belong to this PLAID index",
                            ),
                        );
                    }
                    if plan.decision() == EligibleCentroidDecision::Empty {
                        let hits: Vec<SearchHit> = Vec::new();
                        assert(hits@ =~= Seq::<SearchHit>::empty());
                        return Ok(SearchAction::Finished(hits));
                    }
                }
                Ok(SearchAction::ScoreCentroids)
            },
            SearchEvent::CentroidsScored(scores) => Ok(
                SearchAction::ScoreCandidates(
                    self.probe_adaptive(
                        scores,
                        params,
                        maximum_nprobes,
                        desired_candidates,
                        eligibility,
                        plan,
                        stats,
                    ),
                ),
            ),
            SearchEvent::CandidatesScored(scored) => Ok(
                SearchAction::ScoreDocuments(self.shortlist(scored, params, stats)),
            ),
            SearchEvent::DocumentsScored(scored) => Ok(
                SearchAction::Finished(self.finish_search(scored, params, stats)),
            ),
        }
    }
}

/// Why a set of documents cannot be scored directly.
pub open spec fn direct_fault(segment: Segment, query: Grid, documents: Seq<u32>) -> Option<Fault> {
    if query_fault(segment, query) is Some {
        query_fault(segment, query)
    } else {
        ordinals_fault(segment, documents)
    }
}

/// Every document has a token.
pub open spec fn all_have_tokens(segment: Segment, documents: Seq<u32>) -> bool {
    forall|i: int|
        0 <= i < documents.len() ==> document_len(segment, #[trigger] documents[i]) > 0
}

impl PlaidIndex {
    fn do_all_have_tokens(&self, documents: &[u32]) -> (result: bool)
        requires
            ordinals_fault(self@, documents@) is None,
        ensures
            result == all_have_tokens(self@, documents@),
    {
        let mut i: usize = 0;
        while i < documents.len()
            invariant
                ordinals_fault(self@, documents@) is None,
                i <= documents@.len(),
                forall|j: int| 0 <= j < i ==> document_len(self@, #[trigger] documents@[j]) > 0,
            decreases documents@.len() - i,
        {
            proof {
                if i < documents@.len() - 1 {
                    assert(documents@[i as int] < documents@[documents@.len() - 1]);
                }
            }
            if let Ok((start, end)) = self.document_token_range(documents[i]) {
                if start == end {
                    assert(document_len(self@, documents@[i as int]) == 0);
                    return false;
                }
            }
            i += 1;
        }
        true
    }

    /// Scores a known set of documents without probing. `None` means that one of
    /// them has no tokens, which no posting would lead to.
    pub fn search_quantized_residuals(
        &self,
        query: &Matrix,
        document_ordinals: &[u32],
        event: SearchEvent,
        stats: &mut PlaidSearchStats,
    ) -> (result: Result<Option<SearchAction>>)
        requires
            event_fits(self@, event),
            event is Started || event is DocumentsScored,
        ensures
            match event {
                SearchEvent::DocumentsScored(scored) => {
                    &&& result is Ok
                    &&& result->Ok_0 is Some
                    &&& (result->Ok_0->0)@ == Request::Finished(ranked(self@, scored@))
                    &&& *final(stats) == PlaidSearchStats {
                        candidate_documents: scored@.len() as u64,
                        exact_documents: scored@.len() as u64,
                        ..*old(stats)
                    }
                },
                _ => *final(stats) == *old(stats) && match result {
                    Ok(Some(action)) => direct_fault(self@, query@, document_ordinals@) is None
                        && all_have_tokens(self@, document_ordinals@) && action@
                        == Request::ScoreDocuments(document_ordinals@),
                    Ok(None) => direct_fault(self@, query@, document_ordinals@) is None
                        && !all_have_tokens(self@, document_ordinals@),
                    Err(error) => direct_fault(self@, query@, document_ordinals@) == Some(error@),
                },
            },
    {
        match event {
            SearchEvent::DocumentsScored(scored) => {
                stats.candidate_documents = scored.len() as u64;
                stats.exact_documents = scored.len() as u64;
                Ok(Some(SearchAction::Finished(self.rank(scored))))
            },
            _ => {
                self.validate_query(query)?;
                self.validate_ordinals(document_ordinals)?;
                if !self.do_all_have_tokens(document_ordinals) {
                    return Ok(None);
                }
                let mut documents: Vec<u32> = Vec::new();
                documents.extend_from_slice(document_ordinals);
                assert(documents@ =~= document_ordinals@);
                Ok(Some(SearchAction::ScoreDocuments(documents)))
            },
        }
    }
}

/// Documents scored by a function.
pub open spec fn scored_by(documents: Seq<u32>, score: spec_fn(u32) -> u32) -> Seq<ScoredDocument> {
    documents.map_values(
        |document: u32| ScoredDocument { document_ordinal: document, score: score(document) },
    )
}

/// Hits stand in ranking order, and a document that was scored but is not
/// among them ranks behind every one of them.
pub proof fn hits_are_the_best(
    segment: Segment,
    exact: Seq<ScoredDocument>,
    params: PlaidSearchParams,
)
    ensures
        forall|i: int, j: int|
            0 <= i < j < final_hits(segment, exact, params).len() ==> (#[trigger] final_hits(
                segment,
                exact,
                params,
            )[i]).before(#[trigger] final_hits(segment, exact, params)[j]),
        forall|i: int, k: int|
            0 <= i < final_hits(segment, exact, params).len() && 0 <= k < exact.len()
                && !final_hits(segment, exact, params).contains(hit_of(segment, exact[k]))
                ==> (#[trigger] final_hits(segment, exact, params)[i]).before(
                hit_of(segment, #[trigger] exact[k]),
            ),
        final_hits(segment, exact, params).len() == smaller(params.top_k as nat, exact.len()),
{
    let all = exact.map_values(|one: ScoredDocument| hit_of(segment, one));
    let list = ranked(segment, exact);
    let hits = final_hits(segment, exact, params);
    ascending_is_sorted_permutation(all);
    assert forall|i: int, k: int|
        0 <= i < hits.len() && 0 <= k < exact.len() && !hits.contains(hit_of(segment, exact[k]))
        implies (#[trigger] hits[i]).before(hit_of(segment, #[trigger] exact[k])) by {
        let own = hit_of(segment, exact[k]);
        assert(all[k] == own);
        assert(all.contains(own));
        assert(list.contains(own));
        let p = choose|p: int| 0 <= p < list.len() && list[p] == own;
        if p < hits.len() {
            assert(hits[p] == own);
        }
        assert(list[i].before(list[p]));
    }
}

/// A ranked hit belongs to one of the documents that were scored.
pub proof fn ranked_hits_were_scored(segment: Segment, scored: Seq<ScoredDocument>, place: int) -> (from:
    int)
    requires
        0 <= place < ranked(segment, scored).len(),
    ensures
        0 <= from < scored.len(),
        ranked(segment, scored)[place] == hit_of(segment, scored[from]),
{
    let mapped = scored.map_values(|one: ScoredDocument| hit_of(segment, one));
    ascending_is_sorted_permutation(mapped);
    assert(ranked(segment, scored).contains(ranked(segment, scored)[place]));
    choose|from: int|
        0 <= from < mapped.len() && #[trigger] mapped[from] == ranked(segment, scored)[place]
}

/// Every hit of a search is a visible document, under its own address and with
/// its own score.
pub proof fn search_returns_only_visible_documents<E: Eligibility>(
    segment: Segment,
    scores: Grid,
    params: PlaidSearchParams,
    eligibility: E,
    approximate: spec_fn(u32) -> u32,
    exact: spec_fn(u32) -> u32,
    place: int,
)
    requires
        0 <= place < final_hits(
            segment,
            scored_by(
                shortlisted(
                    segment,
                    scored_by(probed_documents(segment, scores, params, eligibility), approximate),
                    params,
                ),
                exact,
            ),
            params,
        ).len(),
    ensures
        ({
            let hit = final_hits(
                segment,
                scored_by(
                    shortlisted(
                        segment,
                        scored_by(
                            probed_documents(segment, scores, params, eligibility),
                            approximate,
                        ),
                        params,
                    ),
                    exact,
                ),
                params,
            )[place];
            &&& eligibility.admits(hit.document_ordinal, hit.row_address)
            &&& hit.row_address == segment.row_addresses[hit.document_ordinal as int]
            &&& hit.score == exact(hit.document_ordinal)
        }),
{
    let documents = probed_documents(segment, scores, params, eligibility);
    let coarse = scored_by(documents, approximate);
    let kept = shortlisted(segment, coarse, params);
    let fine = scored_by(kept, exact);
    ascending_is_sorted_permutation(
        fine.map_values(|one: ScoredDocument| hit_of(segment, one)),
    );
    ascending_is_sorted_permutation(
        coarse.map_values(|one: ScoredDocument| hit_of(segment, one)),
    );
    let from = ranked_hits_were_scored(segment, fine, place);
    let first = ranked_hits_were_scored(segment, coarse, from);
    assert(kept[from] == coarse[first].document_ordinal);
    assert(documents.contains(documents[first]));
    probed_documents_are_visible(segment, scores, params, eligibility, documents[first]);
}

/// Mapping keeps a rearrangement a rearrangement.
pub(crate) proof fn mapped_rearrangement<A, B>(left: Seq<A>, right: Seq<A>, f: spec_fn(A) -> B)
    requires
        left.to_multiset() == right.to_multiset(),
    ensures
        left.map_values(f).to_multiset() == right.map_values(f).to_multiset(),
    decreases left.len(),
{
    left.to_multiset_ensures();
    right.to_multiset_ensures();
    if left.len() == 0 {
        assert(left.map_values(f) =~= right.map_values(f));
    } else {
        let last = left.last();
        assert(left.contains(last));
        assert(right.to_multiset().count(last) > 0);
        assert(right.contains(last));
        let i = choose|i: int| 0 <= i < right.len() && right[i] == last;
        let a = left.drop_last();
        let b = right.remove(i);
        assert(a =~= left.remove(left.len() - 1));
        assert(a.to_multiset() =~= b.to_multiset());
        mapped_rearrangement(a, b, f);
        let mapped_left = left.map_values(f);
        let mapped_right = right.map_values(f);
        mapped_left.to_multiset_ensures();
        mapped_right.to_multiset_ensures();
        assert(mapped_left.remove(left.len() - 1) =~= a.map_values(f));
        assert(mapped_right.remove(i) =~= b.map_values(f));
        assert(mapped_left.contains(mapped_left[left.len() - 1]));
        assert(mapped_right.contains(mapped_right[i]));
        assert(mapped_left.to_multiset().count(f(last)) > 0);
        assert(mapped_right.to_multiset().count(f(last)) > 0);
        assert(mapped_left.to_multiset() =~= a.map_values(f).to_multiset().insert(f(last)));
        assert(mapped_right.to_multiset() =~= b.map_values(f).to_multiset().insert(f(last)));
    }
}

/// Scoring a set of documents directly gives the hits of a search over the same
/// documents whose budgets truncate nothing.
pub proof fn direct_scoring_matches_untruncated_search(
    segment: Segment,
    documents: Seq<u32>,
    approximate: spec_fn(u32) -> u32,
    exact: spec_fn(u32) -> u32,
    params: PlaidSearchParams,
)
    requires
        exact_count(params, documents.len()) == documents.len(),
        params.top_k >= documents.len(),
    ensures
        final_hits(
            segment,
            scored_by(shortlisted(segment, scored_by(documents, approximate), params), exact),
            params,
        ) == ranked(segment, scored_by(documents, exact)),
{
    let scored = scored_by(documents, approximate);
    let all = scored.map_values(|one: ScoredDocument| hit_of(segment, one));
    let list = ranked(segment, scored);
    ascending_is_sorted_permutation(all);
    assert(list.take(exact_count(params, scored.len()) as int) =~= list);
    let short = shortlisted(segment, scored, params);
    assert(short == ordinals(list));
    let pick = |hit: SearchHit| hit.document_ordinal;
    mapped_rearrangement(list, all, pick);
    assert(all.map_values(pick) =~= documents);
    assert(short.to_multiset() == documents.to_multiset());
    let score = |document: u32|
        ScoredDocument { document_ordinal: document, score: exact(document) };
    let make = |one: ScoredDocument| hit_of(segment, one);
    mapped_rearrangement(short, documents, score);
    mapped_rearrangement(scored_by(short, exact), scored_by(documents, exact), make);
    ascending_ignores_arrival_order(
        scored_by(short, exact).map_values(make),
        scored_by(documents, exact).map_values(make),
    );
    short.to_multiset_ensures();
    documents.to_multiset_ensures();
    let rescored = scored_by(short, exact);
    ascending_is_sorted_permutation(rescored.map_values(make));
    assert(final_hits(segment, rescored, params) =~= ranked(segment, rescored));
}

/// Where the first round finds enough documents, an adaptive search without a
/// plan finds what a plain search finds.
pub proof fn satisfied_adaptive_search_is_plain_search<E: Eligibility>(
    segment: Segment,
    scores: Grid,
    params: PlaidSearchParams,
    maximum_nprobes: nat,
    desired: nat,
    eligibility: E,
)
    requires
        scores.columns == segment.centroids.rows,
        desired <= probing_of(
            segment,
            scores,
            params,
            maximum_nprobes,
            desired,
            eligibility,
            None,
        ).found(params.n_ivf_probe as nat).len(),
    ensures
        adaptive_documents(
            probing_of(segment, scores, params, maximum_nprobes, desired, eligibility, None),
            params.n_ivf_probe as nat,
        ) == probed_documents(segment, scores, params, eligibility),
{
}

/// The last round decides what an adaptive search finds: it finds what a plain
/// search with that many probes finds.
pub proof fn adaptive_search_is_plain_search_with_last_probes<E: Eligibility>(
    segment: Segment,
    scores: Grid,
    params: PlaidSearchParams,
    maximum_nprobes: nat,
    desired: nat,
    eligibility: E,
    last: usize,
)
    requires
        scores.columns == segment.centroids.rows,
        last == probing_of(
            segment,
            scores,
            params,
            maximum_nprobes,
            desired,
            eligibility,
            None,
        ).schedule(params.n_ivf_probe as nat).last(),
    ensures
        adaptive_documents(
            probing_of(segment, scores, params, maximum_nprobes, desired, eligibility, None),
            params.n_ivf_probe as nat,
        ) == probed_documents(
            segment,
            scores,
            (PlaidSearchParams { n_ivf_probe: last, ..params }),
            eligibility,
        ),
{
}

/// A scored document ranks before another one: it scores more, or as much at a row
/// address that is no larger.
pub open spec fn outranks(segment: Segment, one: ScoredDocument, other: ScoredDocument) -> bool {
    ||| scalar::total_position(one.score) > scalar::total_position(other.score)
    ||| one.score == other.score && segment.row_addresses[one.document_ordinal as int]
        <= segment.row_addresses[other.document_ordinal as int]
}

/// A search returns the documents with the highest scores, best first and each
/// under its own row address. It returns as many as it was asked for, or all where
/// fewer were scored, and a document that it leaves out ranks behind every one
/// that it returns.
pub proof fn searches_return_the_highest_scores(
    segment: Segment,
    exact: Seq<ScoredDocument>,
    params: PlaidSearchParams,
)
    ensures
        ({
            let hits = final_hits(segment, exact, params);
            &&& hits.len() <= params.top_k
            &&& hits.len() <= exact.len()
            &&& hits.len() == params.top_k || hits.len() == exact.len()
            &&& forall|i: int|
                0 <= i < hits.len() ==> (#[trigger] hits[i]).row_address
                    == segment.row_addresses[hits[i].document_ordinal as int] && exact.contains(
                    (ScoredDocument {
                        document_ordinal: hits[i].document_ordinal,
                        score: hits[i].score,
                    }),
                )
            &&& forall|i: int, j: int|
                0 <= i < j < hits.len() ==> {
                    let left = #[trigger] hits[i];
                    let right = #[trigger] hits[j];
                    ||| scalar::total_position(left.score) > scalar::total_position(right.score)
                    ||| left.score == right.score && left.row_address <= right.row_address
                }
            &&& forall|i: int, k: int|
                0 <= i < hits.len() && 0 <= k < exact.len() && !hits.contains(
                    (SearchHit {
                        document_ordinal: exact[k].document_ordinal,
                        row_address: segment.row_addresses[exact[k].document_ordinal as int],
                        score: exact[k].score,
                    }),
                ) ==> outranks(
                    segment,
                    (ScoredDocument {
                        document_ordinal: (#[trigger] hits[i]).document_ordinal,
                        score: hits[i].score,
                    }),
                    #[trigger] exact[k],
                )
        }),
{
    let list = ranked(segment, exact);
    let hits = final_hits(segment, exact, params);
    documents_rank_by_score(segment, exact);
    assert forall|i: int| 0 <= i < hits.len() implies (#[trigger] hits[i]).row_address
        == segment.row_addresses[hits[i].document_ordinal as int] && exact.contains(
        (ScoredDocument { document_ordinal: hits[i].document_ordinal, score: hits[i].score }),
    ) by {
        assert(hits[i] == list[i]);
    }
    assert forall|i: int, j: int| 0 <= i < j < hits.len() implies {
        let left = #[trigger] hits[i];
        let right = #[trigger] hits[j];
        ||| scalar::total_position(left.score) > scalar::total_position(right.score)
        ||| left.score == right.score && left.row_address <= right.row_address
    } by {
        assert(hits[i] == list[i] && hits[j] == list[j]);
    }
    assert forall|i: int, k: int|
        0 <= i < hits.len() && 0 <= k < exact.len() && !hits.contains(
            (SearchHit {
                document_ordinal: exact[k].document_ordinal,
                row_address: segment.row_addresses[exact[k].document_ordinal as int],
                score: exact[k].score,
            }),
        ) implies outranks(
        segment,
        (ScoredDocument {
            document_ordinal: (#[trigger] hits[i]).document_ordinal,
            score: hits[i].score,
        }),
        #[trigger] exact[k],
    ) by {
        let own = SearchHit {
            document_ordinal: exact[k].document_ordinal,
            row_address: segment.row_addresses[exact[k].document_ordinal as int],
            score: exact[k].score,
        };
        assert(list.contains(own));
        let p = choose|p: int| 0 <= p < list.len() && list[p] == own;
        if p < hits.len() {
            assert(hits[p] == own);
        }
        assert(hits[i] == list[i]);
        assert(list[i].row_address
            == segment.row_addresses[list[i].document_ordinal as int]);
        assert(list[i] == hits[i] && list[p] == own);
    }
}

/// The documents that are scored exactly are those with the highest approximate
/// scores: each was scored approximately, and outranks every document that is left
/// out. As many are kept as the exact budget says.
pub proof fn shortlists_keep_the_highest_scores(
    segment: Segment,
    approximate: Seq<ScoredDocument>,
    params: PlaidSearchParams,
    place: int,
    other: int,
)
    requires
        0 <= place < shortlisted(segment, approximate, params).len(),
        0 <= other < approximate.len(),
        !shortlisted(segment, approximate, params).contains(approximate[other].document_ordinal),
    ensures
        shortlisted(segment, approximate, params).len() == exact_count(params, approximate.len()),
        exists|from: int|
            0 <= from < approximate.len() && (#[trigger] approximate[from]).document_ordinal
                == shortlisted(segment, approximate, params)[place] && outranks(
                segment,
                approximate[from],
                approximate[other],
            ),
{
    let list = ranked(segment, approximate);
    let short = shortlisted(segment, approximate, params);
    documents_rank_by_score(segment, approximate);
    let own = approximate[other];
    let hit = SearchHit {
        document_ordinal: own.document_ordinal,
        row_address: segment.row_addresses[own.document_ordinal as int],
        score: own.score,
    };
    assert(list.contains(hit));
    let p = choose|p: int| 0 <= p < list.len() && list[p] == hit;
    if p < short.len() {
        assert(short[p] == own.document_ordinal);
        assert(short.contains(own.document_ordinal));
    }
    let kept = ScoredDocument {
        document_ordinal: list[place].document_ordinal,
        score: list[place].score,
    };
    assert(list[place].row_address == segment.row_addresses[list[place].document_ordinal as int]);
    assert(approximate.contains(kept));
    let from = choose|from: int| 0 <= from < approximate.len() && approximate[from] == kept;
    assert(list[place] == list[place] && list[p] == hit);
    assert(outranks(segment, approximate[from], approximate[other]));
}

/// A search under a plan is accepted exactly where the search is and the plan was
/// made by the same loaded segment. It ends at once exactly where the plan says
/// that no document is eligible.
pub proof fn plans_serve_their_own_segment(
    segment: Segment,
    identity: u64,
    query: Grid,
    params: PlaidSearchParams,
    plan: Option<CentroidPlan>,
)
    ensures
        adaptive_fault(segment, identity, query, params, plan) is None <==> {
            &&& search_fault(segment, query, params) is None
            &&& plan is Some ==> {
                &&& (plan->0).owner == identity
                &&& forall|i: int|
                    0 <= i < (plan->0).centroids.len() ==> #[trigger] (plan->0).centroids[i]
                        < segment.centroids.rows
            }
        },
        plans_nothing(plan) <==> plan is Some && (plan->0).decision
            == EligibleCentroidDecision::Empty,
{
}

/// A direct search is accepted exactly where the query is and the documents are
/// documents of the segment, each once and in order. It goes ahead exactly where
/// each of them has a token.
pub proof fn direct_searches_list_documents(segment: Segment, query: Grid, documents: Seq<u32>)
    requires
        segment.wf(),
    ensures
        direct_fault(segment, query, documents) is None <==> {
            &&& query_fault(segment, query) is None
            &&& forall|i: int, j: int|
                0 <= i < j < documents.len() ==> #[trigger] documents[i] < #[trigger] documents[j]
            &&& forall|i: int|
                0 <= i < documents.len() ==> #[trigger] documents[i] < segment.row_addresses.len()
        },
        direct_fault(segment, query, documents) is None ==> (all_have_tokens(segment, documents)
            <==> forall|i: int|
            0 <= i < documents.len() ==> segment.document_offsets[#[trigger] documents[i] as int]
                < segment.document_offsets[documents[i] + 1]),
{
    if strictly_increasing(documents) && documents.len() > 0 && documents.last()
        < segment.documents() {
        assert forall|i: int| 0 <= i < documents.len() implies #[trigger] documents[i]
            < segment.row_addresses.len() by {
            if i < documents.len() - 1 {
                assert(documents[i] < documents[documents.len() - 1]);
            }
        }
    }
    if direct_fault(segment, query, documents) is None {
        assert forall|i: int| 0 <= i < documents.len() implies document_len(
            segment,
            #[trigger] documents[i],
        ) == segment.document_offsets[documents[i] + 1]
            - segment.document_offsets[documents[i] as int] by {
            let document = documents[i] as int;
            assert(segment.document_offsets[document] <= segment.document_offsets[document + 1]);
            assert(segment.document_offsets[document + 1]
                <= segment.document_offsets[segment.documents() as int]);
        }
        if forall|i: int|
            0 <= i < documents.len() ==> segment.document_offsets[#[trigger] documents[i] as int]
                < segment.document_offsets[documents[i] + 1] {
            assert forall|i: int| 0 <= i < documents.len() implies document_len(
                segment,
                #[trigger] documents[i],
            ) > 0 by {}
        }
        if all_have_tokens(segment, documents) {
            assert forall|i: int|
                0 <= i < documents.len() implies segment.document_offsets[#[trigger] documents[i] as int]
                < segment.document_offsets[documents[i] + 1] by {
                assert(document_len(segment, documents[i]) > 0);
            }
        }
    }
}

} // verus!
