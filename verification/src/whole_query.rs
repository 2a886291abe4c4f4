//! What a query over all segments of an index returns.

use crate::adaptive::{adaptive_documents, Probing};
use crate::database::{increasing, listed_addresses_are_selected, DatabaseResult};
use crate::exec::{QueryExecution, QueryFinish, SegmentSearch, SegmentSearchOutcome};
use crate::hits::{
    best_addresses, enumerates, fetches, identified, merging_keeps_the_best_score, offered,
    ranked_hits, with_hits, within, ExactHit, ScoredRow,
};
use crate::index::{all_below, ordinals_resolve_to_their_addresses, Segment};
use crate::matrix::{Grid, Matrix};
use crate::pipeline::{
    final_hits, plans_nothing, ranked_hits_were_scored, shortlisted, Request, SearchAction,
    SearchEvent,
};
use crate::search::{
    candidates_are_posted_and_visible, hit_of, in_order_lists_the_set, posted_documents_exist,
    probes_are_best_allowed, ranked, smaller, PlaidSearchStats, ScoredDocument, SearchHit,
};
use crate::sort::{ascending, ascending_is_sorted_permutation};
use crate::vector_index::{
    candidates_step, desired_count, direct_step, listed_ordinals, listed_ordinals_are_of_addresses,
    mask_probing, PlaidVectorIndex, Query,
};
use vstd::prelude::*;

verus! {

/// The documents that were scored, in order.
pub open spec fn documents_of(scored: Seq<ScoredDocument>) -> Seq<u32> {
    scored.map_values(|one: ScoredDocument| one.document_ordinal)
}

/// A list of scored documents leads to the hits of a direct search: all listed
/// documents were scored.
pub open spec fn scores_directly(
    segment: Segment,
    documents: Seq<u32>,
    scored: Seq<ScoredDocument>,
    hits: Seq<SearchHit>,
) -> bool {
    documents_of(scored) == documents && hits == ranked(segment, scored)
}

/// Two lists of scored documents lead to the hits of a search by probing: the
/// documents that were found were scored by their codes, and those on the
/// shortlist again by their residuals.
pub open spec fn scores_in_turn(
    probing: Probing,
    search: SegmentSearch,
    coarse: Seq<ScoredDocument>,
    fine: Seq<ScoredDocument>,
    hits: Seq<SearchHit>,
) -> bool {
    let params = search->plan.params;
    &&& documents_of(coarse) == adaptive_documents(probing, params.n_ivf_probe as nat)
    &&& documents_of(fine) == shortlisted(probing.segment, coarse, params)
    &&& hits == final_hits(probing.segment, fine, params)
}

impl QueryExecution {
    /// The probing run of a search, from the scores of the centroids.
    pub open spec fn probing(
        self,
        index: PlaidVectorIndex,
        search: SegmentSearch,
        scores: Grid,
    ) -> Probing {
        mask_probing(
            index@,
            scores,
            search->plan.params,
            search->plan.maximum_nprobes as nat,
            desired_count(index@, search->plan),
            self.mask,
            search->plan.eligible_centroids@,
        )
    }

    /// A search of a segment ends with some hits, whatever scores it was given
    /// for the centroids and documents that it asked for.
    pub open spec fn finds(
        self,
        index: PlaidVectorIndex,
        search: SegmentSearch,
        hits: Seq<SearchHit>,
    ) -> bool {
        match search {
            SegmentSearch::Direct { document_ordinals, .. } => exists|scored: Seq<ScoredDocument>|
                #[trigger] scores_directly(index@, document_ordinals@, scored, hits),
            SegmentSearch::Empty => hits.len() == 0,
            SegmentSearch::Legacy { plan, .. } => {
                ||| plans_nothing(Some(plan.eligible_centroids@)) && hits.len() == 0
                ||| exists|
                    scores: Grid,
                    coarse: Seq<ScoredDocument>,
                    fine: Seq<ScoredDocument>,
                | #[trigger]
                    scores_in_turn(self.probing(index, search, scores), search, coarse, fine, hits)
            },
        }
    }

    /// Every hit is a row of a segment that the mask selects.
    pub open spec fn hits_are_eligible(
        self,
        indices: Seq<&PlaidVectorIndex>,
        hits: Seq<SearchHit>,
    ) -> bool {
        forall|i: int|
            0 <= i < hits.len() ==> self.eligible(indices, (#[trigger] hits[i]).row_address)
    }

    /// Every candidate is a row of a segment that the mask selects.
    pub open spec fn candidates_are_eligible(self, indices: Seq<&PlaidVectorIndex>) -> bool {
        forall|address: u64| #[trigger]
            self.candidates@.dom().contains(address) ==> self.eligible(indices, address)
    }
}

/// A direct search whose documents are scored as asked for ends with hits that it
/// finds.
pub proof fn direct_searches_end_with_found_hits(
    execution: QueryExecution,
    index: PlaidVectorIndex,
    search: SegmentSearch,
    scored: &Vec<ScoredDocument>,
    stats: (PlaidSearchStats, PlaidSearchStats),
    last: DatabaseResult<Option<SearchAction>>,
    hits: Seq<SearchHit>,
)
    requires
        search is Direct,
        documents_of(scored@) == search->document_ordinals@,
        direct_step(
            index@,
            execution.tokens@,
            search->document_ordinals@,
            SearchEvent::DocumentsScored(scored),
            stats.0,
            last,
            stats.1,
        ),
        (last->Ok_0->0)@ == Request::Finished(hits),
    ensures
        execution.finds(index, search, hits),
{
    assert(scores_directly(index@, search->document_ordinals@, scored@, hits));
}

/// A search by probing whose centroids, candidates and documents are scored as
/// asked for ends with hits that it finds. Times may be noted between its steps.
pub proof fn probing_searches_end_with_found_hits(
    execution: QueryExecution,
    index: PlaidVectorIndex,
    search: SegmentSearch,
    scores: &Matrix,
    coarse: &Vec<ScoredDocument>,
    fine: &Vec<ScoredDocument>,
    stats: Seq<PlaidSearchStats>,
    actions: Seq<SearchAction>,
    hits: Seq<SearchHit>,
)
    requires
        search is Legacy,
        stats.len() == 6,
        actions.len() == 3,
        candidates_step(
            index@,
            index.identity(),
            execution.tokens@,
            search->plan,
            desired_count(index@, search->plan),
            execution.mask,
            SearchEvent::CentroidsScored(scores),
            stats[0],
            Ok(actions[0]),
            stats[1],
        ),
        actions[0]@ == Request::ScoreCandidates(documents_of(coarse@)),
        candidates_step(
            index@,
            index.identity(),
            execution.tokens@,
            search->plan,
            desired_count(index@, search->plan),
            execution.mask,
            SearchEvent::CandidatesScored(coarse),
            stats[2],
            Ok(actions[1]),
            stats[3],
        ),
        actions[1]@ == Request::ScoreDocuments(documents_of(fine@)),
        candidates_step(
            index@,
            index.identity(),
            execution.tokens@,
            search->plan,
            desired_count(index@, search->plan),
            execution.mask,
            SearchEvent::DocumentsScored(fine),
            stats[4],
            Ok(actions[2]),
            stats[5],
        ),
        actions[2]@ == Request::Finished(hits),
    ensures
        execution.finds(index, search, hits),
{
    let probing = execution.probing(index, search, scores@);
    assert(scores_in_turn(probing, search, coarse@, fine@, hits));
}

/// Where every candidate of a query is eligible and every hit of a segment is,
/// every candidate still is once the hits are taken in.
pub proof fn recorded_hits_stay_eligible(
    before: QueryExecution,
    after: QueryExecution,
    indices: Seq<&PlaidVectorIndex>,
    outcome: SegmentSearchOutcome,
)
    requires
        before.candidates_are_eligible(indices),
        before.hits_are_eligible(indices, outcome.hits()),
        after.same_query(before),
        after.candidates@ == with_hits(before.candidates@, outcome.hits()),
    ensures
        after.candidates_are_eligible(indices),
{
    let hits = outcome.hits();
    merging_keeps_the_best_score(before.candidates@, hits);
    assert forall|address: u64| #[trigger]
        after.candidates@.dom().contains(address) implies after.eligible(indices, address) by {
        assert(offered(before.candidates@, hits, address, after.candidates@[address]));
        if !before.candidates@.dom().contains(address) {
            let i = choose|i: int|
                0 <= i < hits.len() && (#[trigger] hits[i]).row_address == address
                    && hits[i].score == after.candidates@[address];
            assert(before.eligible(indices, hits[i].row_address));
        }
        assert(before.eligible(indices, address));
    }
}

/// A document that a probing run finds belongs to the segment, and is wanted.
proof fn probing_finds_wanted_documents(probing: Probing, nprobe: nat, document: u32)
    requires
        probing.segment.wf(),
        all_below(probing.allowed, probing.segment.centroids.rows),
        probing.found(nprobe).contains(document),
    ensures
        document < probing.segment.documents(),
        (probing.wanted)(document),
{
    let segment = probing.segment;
    let selected = probing.selected(nprobe);
    in_order_lists_the_set(probing.selected_set(nprobe));
    candidates_are_posted_and_visible(segment, selected, probing.wanted, document);
    let i = choose|i: int|
        0 <= i < selected.len() && #[trigger] segment.posted(selected[i] as int).contains(document);
    assert(selected.contains(selected[i]));
    probes_are_best_allowed(
        probing.scores,
        probing.allowed,
        nprobe,
        probing.threshold,
        probing.scores.rows,
        selected[i],
    );
    let place = choose|place: int|
        0 <= place < probing.allowed.len() && probing.allowed[place] == selected[i];
    assert(probing.allowed[place] < segment.centroids.rows);
    posted_documents_exist(segment, selected[i], document);
}

/// A hit belongs to one of the documents that were scored.
proof fn hits_were_scored(
    segment: Segment,
    scored: Seq<ScoredDocument>,
    place: int,
) -> (from: int)
    requires
        0 <= place < ranked(segment, scored).len(),
    ensures
        0 <= from < scored.len(),
        ranked(segment, scored)[place] == hit_of(segment, scored[from]),
        documents_of(scored)[from] == ranked(segment, scored)[place].document_ordinal,
{
    ranked_hits_were_scored(segment, scored, place)
}

/// However a segment is searched, every hit is one of its rows, and one that the
/// mask selects.
pub proof fn searches_find_eligible_rows(
    execution: QueryExecution,
    indices: Seq<&PlaidVectorIndex>,
    position: int,
    search: SegmentSearch,
    hits: Seq<SearchHit>,
)
    requires
        0 <= position < indices.len(),
        indices[position]@.wf(),
        execution.searches(*indices[position], search),
        execution.finds(*indices[position], search, hits),
    ensures
        execution.hits_are_eligible(indices, hits),
{
    let index = *indices[position];
    let segment = index@;
    assert forall|i: int| 0 <= i < hits.len() implies execution.eligible(
        indices,
        (#[trigger] hits[i]).row_address,
    ) by {
        let address = hits[i].row_address;
        match search {
            SegmentSearch::Direct { document_ordinals, .. } => {
                let scored = choose|scored: Seq<ScoredDocument>| #[trigger]
                    scores_directly(segment, document_ordinals@, scored, hits);
                let from = hits_were_scored(segment, scored, i);
                listed_documents_are_selected(execution, index, from);
            },
            SegmentSearch::Empty => {},
            SegmentSearch::Legacy { plan, .. } => {
                let (scores, coarse, fine) = choose|
                    scores: Grid,
                    coarse: Seq<ScoredDocument>,
                    fine: Seq<ScoredDocument>,
                | #[trigger]
                    scores_in_turn(
                        execution.probing(index, search, scores),
                        search,
                        coarse,
                        fine,
                        hits,
                    );
                let probing = execution.probing(index, search, scores);
                probed_hits_are_wanted(probing, search, coarse, fine, hits, i);
            },
        }
        assert(segment.row_addresses.contains(address));
        assert(indices[position]@.row_addresses.contains(address));
        assert(execution.mask.selects(address));
    }
}

/// A document that the mask lists is a row of the segment that it selects.
proof fn listed_documents_are_selected(
    execution: QueryExecution,
    index: PlaidVectorIndex,
    place: int,
)
    requires
        index@.wf(),
        execution.listed_in(index) is Some,
        0 <= place < (execution.listed_in(index)->0).len(),
    ensures
        ({
            let document = (execution.listed_in(index)->0)[place];
            &&& document < index@.documents()
            &&& execution.mask.selects(index@.row_addresses[document as int])
        }),
{
    let segment = index@;
    let addresses = execution.mask.listed()->0;
    let list = listed_ordinals(segment, addresses);
    listed_ordinals_are_of_addresses(segment, addresses);
    assert(list[place] == (execution.listed_in(index)->0)[place]);
    let k = choose|k: int|
        0 <= k < addresses.len() && segment.ordinal_of(#[trigger] addresses[k]) == Some(
            list[place],
        );
    ordinals_resolve_to_their_addresses(segment, addresses[k]);
    assert(addresses.contains(addresses[k]));
    listed_addresses_are_selected(execution.mask, addresses[k]);
}

/// A hit of a search by probing is a wanted document of the segment.
proof fn probed_hits_are_wanted(
    probing: Probing,
    search: SegmentSearch,
    coarse: Seq<ScoredDocument>,
    fine: Seq<ScoredDocument>,
    hits: Seq<SearchHit>,
    place: int,
)
    requires
        probing.segment.wf(),
        all_below(probing.allowed, probing.segment.centroids.rows),
        scores_in_turn(probing, search, coarse, fine, hits),
        0 <= place < hits.len(),
    ensures
        hits[place].document_ordinal < probing.segment.documents(),
        hits[place].row_address
            == probing.segment.row_addresses[hits[place].document_ordinal as int],
        (probing.wanted)(hits[place].document_ordinal),
{
    let segment = probing.segment;
    let params = search->plan.params;
    ascending_is_sorted_permutation(fine.map_values(|one: ScoredDocument| hit_of(segment, one)));
    ascending_is_sorted_permutation(coarse.map_values(|one: ScoredDocument| hit_of(segment, one)));
    let from = hits_were_scored(segment, fine, place);
    let kept = shortlisted(segment, coarse, params);
    assert(documents_of(fine).len() == fine.len());
    assert(kept.len() == fine.len());
    assert(documents_of(fine)[from] == hits[place].document_ordinal);
    assert(kept[from] == ranked(segment, coarse)[from].document_ordinal);
    let first = hits_were_scored(segment, coarse, from);
    let found = adaptive_documents(probing, params.n_ivf_probe as nat);
    assert(found[first] == hits[place].document_ordinal);
    assert(found.contains(found[first]));
    let last = probing.schedule(params.n_ivf_probe as nat).last();
    in_order_lists_the_set(probing.found(last));
    probing_finds_wanted_documents(probing, last, found[first]);
}

/// The states of a query while it takes in the hits of one segment after the
/// other, each found by a search of that segment.
pub open spec fn collects(
    states: Seq<QueryExecution>,
    indices: Seq<&PlaidVectorIndex>,
    searches: Seq<SegmentSearch>,
    outcomes: Seq<SegmentSearchOutcome>,
) -> bool {
    &&& states.len() == outcomes.len() + 1
    &&& searches.len() == outcomes.len()
    &&& outcomes.len() <= indices.len()
    &&& states[0].fresh()
    &&& forall|i: int|
        0 <= i < outcomes.len() ==> {
            &&& states[i].searches(*indices[i], searches[i])
            &&& states[i].finds(*indices[i], searches[i], (#[trigger] outcomes[i]).hits())
            &&& states[i + 1].takes_in(states[i], outcomes[i].hits())
        }
}

/// Every candidate that a query collects, from however many segments, is a row of
/// a segment that the mask selects.
pub proof fn collected_candidates_are_eligible(
    states: Seq<QueryExecution>,
    indices: Seq<&PlaidVectorIndex>,
    searches: Seq<SegmentSearch>,
    outcomes: Seq<SegmentSearchOutcome>,
)
    requires
        collects(states, indices, searches, outcomes),
        forall|i: int| 0 <= i < indices.len() ==> (#[trigger] indices[i])@.wf(),
    ensures
        states.last().candidates_are_eligible(indices),
        states.last().same_query(states[0]),
{
    collected_so_far(states, indices, searches, outcomes, outcomes.len());
}

proof fn collected_so_far(
    states: Seq<QueryExecution>,
    indices: Seq<&PlaidVectorIndex>,
    searches: Seq<SegmentSearch>,
    outcomes: Seq<SegmentSearchOutcome>,
    count: nat,
)
    requires
        collects(states, indices, searches, outcomes),
        forall|i: int| 0 <= i < indices.len() ==> (#[trigger] indices[i])@.wf(),
        count <= outcomes.len(),
    ensures
        states[count as int].candidates_are_eligible(indices),
        states[count as int].same_query(states[0]),
    decreases count,
{
    if count > 0 {
        let last = count - 1;
        collected_so_far(states, indices, searches, outcomes, last as nat);
        let hits = outcomes[last].hits();
        assert(indices[last]@.wf());
        searches_find_eligible_rows(states[last], indices, last, searches[last], hits);
        recorded_hits_stay_eligible(states[last], states[count as int], indices, outcomes[last]);
    }
}

/// Settling a query keeps every candidate eligible.
pub proof fn settled_candidates_are_eligible(
    before: QueryExecution,
    after: QueryExecution,
    indices: Seq<&PlaidVectorIndex>,
    fell_back: bool,
)
    requires
        before.candidates_are_eligible(indices),
        after.settles(before, indices, fell_back),
    ensures
        after.candidates_are_eligible(indices),
{
    assert forall|address: u64| #[trigger]
        after.candidates@.dom().contains(address) implies after.eligible(indices, address) by {
        if fell_back {
            let addresses = choose|addresses: Seq<u64>|
                {
                    &&& #[trigger] before.lists_eligible(indices, addresses)
                    &&& fell_back == before.falls_back(addresses.len())
                    &&& fell_back ==> after.candidates@.dom() == addresses.to_set()
                    &&& fell_back ==> after.candidates@.dom().len() == addresses.len()
                    &&& before.filtered ==> after.candidates@.dom().len() >= smaller(
                        before.query.k as nat,
                        addresses.len(),
                    )
                };
            assert(addresses.to_set().contains(address));
            assert(addresses.contains(address));
        }
        assert(before.eligible(indices, address));
    }
}

/// The addresses of candidate rows.
pub open spec fn row_addresses_of(rows: Seq<ScoredRow>) -> Seq<u64> {
    rows.map_values(|row: ScoredRow| row.row_address)
}

/// The addresses of measured rows.
pub open spec fn hit_addresses(hits: Seq<ExactHit>) -> Seq<u64> {
    hits.map_values(|hit: ExactHit| hit.row_address)
}

/// The rows that a query returns once its candidates are measured and
/// identifiers were looked up for some addresses. An index-only query ranks its
/// candidates first and names the best; a refined one names the rows that it
/// fetched and ranks them then.
pub open spec fn returns_rows(
    finish: QueryFinish,
    query: Query,
    measured: Seq<ExactHit>,
    addresses: Seq<u64>,
    row_ids: Seq<u64>,
    returned: Seq<ExactHit>,
) -> bool {
    &&& row_ids.len() == addresses.len()
    &&& match finish {
        QueryFinish::Empty => addresses.len() == 0 && returned.len() == 0,
        QueryFinish::IndexOnly(rows) => {
            &&& hit_addresses(measured) == row_addresses_of(rows@)
            &&& addresses == hit_addresses(ranked_hits(measured, query))
            &&& returned == ascending(identified(ranked_hits(measured, query), row_ids))
        },
        QueryFinish::Refine(fetched) => {
            &&& addresses == fetched@
            &&& measured.len() == addresses.len()
            &&& returned == ranked_hits(identified(measured, row_ids), query)
        },
    }
}

/// Rows in some order that are all the rows with scores are as many as these, and
/// no two have the same address.
proof fn enumerated_rows_are_distinct(rows: Seq<ScoredRow>, scores: Map<u64, u32>)
    requires
        enumerates(rows, scores),
    ensures
        row_addresses_of(rows).no_duplicates(),
        row_addresses_of(rows).to_set() == scores.dom(),
        rows.len() == scores.dom().len(),
{
    let addresses = row_addresses_of(rows);
    assert forall|i: int, j: int|
        0 <= i < addresses.len() && 0 <= j < addresses.len() && i != j implies addresses[i]
        != addresses[j] by {
        assert(rows.contains(rows[i]));
        assert(rows.contains(rows[j]));
        assert(rows[i] != rows[j]);
    }
    assert forall|address: u64| #[trigger]
        addresses.contains(address) <==> scores.dom().contains(address) by {
        if addresses.contains(address) {
            let i = choose|i: int| 0 <= i < addresses.len() && addresses[i] == address;
            assert(rows.contains(rows[i]));
        }
        if scores.dom().contains(address) {
            let row = ScoredRow { row_address: address, score: scores[address] };
            assert(rows.contains(row));
            let i = choose|i: int| 0 <= i < rows.len() && rows[i] == row;
            assert(addresses[i] == address);
        }
    }
    assert(addresses.to_set() =~= scores.dom());
    addresses.unique_seq_to_set();
}

/// The rows that are fetched are candidates, no row twice, and as many as the
/// budget allows.
proof fn fetched_rows_are_candidates(
    addresses: Seq<u64>,
    scores: Map<u64, u32>,
    exact_fallback: bool,
    requested: nat,
)
    requires
        fetches(addresses, scores, exact_fallback, requested),
    ensures
        addresses.no_duplicates(),
        forall|i: int| 0 <= i < addresses.len() ==> scores.dom().contains(#[trigger] addresses[i]),
        exact_fallback ==> addresses.len() == scores.dom().len(),
        !exact_fallback ==> addresses.len() == smaller(requested, scores.dom().len()),
{
    if exact_fallback {
        assert(increasing(addresses));
        assert(addresses.to_set() =~= scores.dom());
        addresses.unique_seq_to_set();
        assert forall|i: int| 0 <= i < addresses.len() implies scores.dom().contains(
            #[trigger] addresses[i],
        ) by {
            assert(addresses.contains(addresses[i]));
        }
    } else {
        let rows = choose|rows: Seq<ScoredRow>| #[trigger]
            enumerates(rows, scores) && addresses == best_addresses(rows, requested);
        let sorted = ascending(rows);
        ascending_is_sorted_permutation(rows);
        rows.lemma_multiset_has_no_duplicates();
        sorted.lemma_multiset_has_no_duplicates_conv();
        assert(enumerates(sorted, scores));
        enumerated_rows_are_distinct(rows, scores);
        enumerated_rows_are_distinct(sorted, scores);
        let named = row_addresses_of(sorted);
        assert forall|i: int| 0 <= i < addresses.len() implies scores.dom().contains(
            #[trigger] addresses[i],
        ) && addresses[i] == named[i] by {
            assert(sorted.contains(sorted[i]));
        }
    }
}

/// Without bounds a query leaves no row out for its distance.
proof fn unbounded_queries_allow_every_row(hits: Seq<ExactHit>, query: Query)
    requires
        query.lower_bound is None,
        query.upper_bound is None,
    ensures
        hits.filter(within(query)) == hits,
        ranked_hits(hits, query).len() == smaller(query.k as nat, hits.len()),
    decreases hits.len(),
{
    reveal(Seq::filter);
    if hits.len() > 0 {
        unbounded_queries_allow_every_row(hits.drop_last(), query);
        assert(hits.drop_last().push(hits.last()) =~= hits);
    } else {
        assert(hits.filter(within(query)) =~= hits);
    }
    ascending_is_sorted_permutation(hits);
}

/// Ranking rows without bounds keeps addresses distinct, and adds none.
proof fn ranked_addresses(hits: Seq<ExactHit>, query: Query)
    requires
        query.lower_bound is None,
        query.upper_bound is None,
        hit_addresses(hits).no_duplicates(),
    ensures
        hit_addresses(ranked_hits(hits, query)).no_duplicates(),
        forall|i: int|
            0 <= i < ranked_hits(hits, query).len() ==> hits.contains(
                #[trigger] ranked_hits(hits, query)[i],
            ),
{
    let sorted = ascending(hits);
    let best = ranked_hits(hits, query);
    unbounded_queries_allow_every_row(hits, query);
    ascending_is_sorted_permutation(hits);
    assert forall|i: int, j: int| 0 <= i < hits.len() && 0 <= j < hits.len() && i != j implies hits[i]
        != hits[j] by {
        assert(hit_addresses(hits)[i] != hit_addresses(hits)[j]);
    }
    hits.lemma_multiset_has_no_duplicates();
    sorted.lemma_multiset_has_no_duplicates_conv();
    assert forall|i: int| 0 <= i < best.len() implies hits.contains(#[trigger] best[i]) by {
        assert(sorted.contains(sorted[i]));
    }
    let named = hit_addresses(best);
    assert forall|i: int, j: int|
        0 <= i < named.len() && 0 <= j < named.len() && i != j implies named[i] != named[j] by {
        assert(best[i] == sorted[i] && best[j] == sorted[j]);
        assert(sorted[i] != sorted[j]);
        assert(hits.contains(best[i]) && hits.contains(best[j]));
        let p = choose|p: int| 0 <= p < hits.len() && hits[p] == best[i];
        let q = choose|q: int| 0 <= q < hits.len() && hits[q] == best[j];
        assert(hit_addresses(hits)[p] != hit_addresses(hits)[q]);
    }
}

/// A filtered query without bounds returns as many rows as it was asked for, or
/// all eligible rows where there are fewer. The rows are eligible, and no row is
/// returned twice: every returned identifier was looked up for a row of a segment
/// that the mask selects, and no address was looked up twice.
pub proof fn filtered_queries_return_all_they_can(
    before: QueryExecution,
    after: QueryExecution,
    indices: Seq<&PlaidVectorIndex>,
    fell_back: bool,
    finish: QueryFinish,
    measured: Seq<ExactHit>,
    addresses: Seq<u64>,
    row_ids: Seq<u64>,
    returned: Seq<ExactHit>,
    eligible: Seq<u64>,
)
    requires
        before.wf(),
        before.filtered,
        before.query.lower_bound is None,
        before.query.upper_bound is None,
        before.candidates_are_eligible(indices),
        before.lists_eligible(indices, eligible),
        after.settles(before, indices, fell_back),
        after.finishes(fell_back, finish),
        returns_rows(finish, after.query, measured, addresses, row_ids, returned),
    ensures
        returned.len() == smaller(before.query.k as nat, eligible.len()),
        addresses.no_duplicates(),
        forall|i: int|
            0 <= i < addresses.len() ==> before.eligible(indices, #[trigger] addresses[i]),
        forall|r: int|
            0 <= r < returned.len() ==> row_ids.contains((#[trigger] returned[r]).row_address),
{
    let scores = after.candidates@;
    let query = after.query;
    settled_candidates_are_eligible(before, after, indices, fell_back);
    let listed = choose|addresses: Seq<u64>|
        {
            &&& #[trigger] before.lists_eligible(indices, addresses)
            &&& fell_back == before.falls_back(addresses.len())
            &&& fell_back ==> scores.dom() == addresses.to_set()
            &&& fell_back ==> scores.dom().len() == addresses.len()
            &&& before.filtered ==> scores.dom().len() >= smaller(
                before.query.k as nat,
                addresses.len(),
            )
        };
    assert(listed.to_set() =~= eligible.to_set()) by {
        assert forall|address: u64| #[trigger]
            listed.contains(address) <==> eligible.contains(address) by {
            assert(listed.contains(address) <==> before.eligible(indices, address));
            assert(eligible.contains(address) <==> before.eligible(indices, address));
        }
    }
    listed.unique_seq_to_set();
    eligible.unique_seq_to_set();
    vstd::seq_lib::seq_to_set_is_finite(eligible);
    assert(scores.dom().subset_of(eligible.to_set())) by {
        assert forall|address: u64| scores.dom().contains(address) implies #[trigger]
            eligible.to_set().contains(address) by {
            assert(after.eligible(indices, address));
            assert(before.eligible(indices, address));
            assert(eligible.contains(address));
        }
    }
    vstd::set_lib::lemma_len_subset(scores.dom(), eligible.to_set());
    match finish {
        QueryFinish::Empty => {
            assert(scores.dom() =~= Set::<u64>::empty());
        },
        QueryFinish::IndexOnly(rows) => {
            enumerated_rows_are_distinct(rows@, scores);
            assert(hit_addresses(measured).len() == measured.len());
            ranked_addresses(measured, query);
            unbounded_queries_allow_every_row(measured, query);
            let best = ranked_hits(measured, query);
            assert forall|i: int| 0 <= i < addresses.len() implies before.eligible(
                indices,
                #[trigger] addresses[i],
            ) by {
                assert(addresses[i] == best[i].row_address);
                let p = choose|p: int| 0 <= p < measured.len() && measured[p] == best[i];
                assert(hit_addresses(measured)[p] == row_addresses_of(rows@)[p]);
                assert(rows@.contains(rows@[p]));
                assert(after.eligible(indices, rows@[p].row_address));
            }
            let named = identified(best, row_ids);
            ascending_is_sorted_permutation(named);
            assert forall|r: int| 0 <= r < returned.len() implies row_ids.contains(
                (#[trigger] returned[r]).row_address,
            ) by {
                assert(returned.contains(returned[r]));
                let p = choose|p: int| 0 <= p < named.len() && named[p] == returned[r];
                assert(row_ids[p] == returned[r].row_address);
            }
        },
        QueryFinish::Refine(fetched) => {
            fetched_rows_are_candidates(
                fetched@,
                scores,
                fell_back,
                after.requested_candidates as nat,
            );
            let named = identified(measured, row_ids);
            unbounded_queries_allow_every_row(named, query);
            ascending_is_sorted_permutation(named);
            assert forall|i: int| 0 <= i < addresses.len() implies before.eligible(
                indices,
                #[trigger] addresses[i],
            ) by {
                assert(after.eligible(indices, fetched@[i]));
            }
            assert forall|r: int| 0 <= r < returned.len() implies row_ids.contains(
                (#[trigger] returned[r]).row_address,
            ) by {
                assert(returned[r] == ascending(named)[r]);
                assert(ascending(named).contains(returned[r]));
                let p = choose|p: int| 0 <= p < named.len() && named[p] == returned[r];
                assert(row_ids[p] == returned[r].row_address);
            }
        },
    }
}

/// From the first segment to the last row: a filtered query without bounds that
/// searches segments one after the other returns as many rows as it was asked for,
/// or all eligible rows where there are fewer, and only eligible rows.
pub proof fn whole_queries_return_all_they_can(
    states: Seq<QueryExecution>,
    indices: Seq<&PlaidVectorIndex>,
    searches: Seq<SegmentSearch>,
    outcomes: Seq<SegmentSearchOutcome>,
    after: QueryExecution,
    fell_back: bool,
    finish: QueryFinish,
    measured: Seq<ExactHit>,
    addresses: Seq<u64>,
    row_ids: Seq<u64>,
    returned: Seq<ExactHit>,
    eligible: Seq<u64>,
)
    requires
        forall|i: int| 0 <= i < indices.len() ==> (#[trigger] indices[i])@.wf(),
        collects(states, indices, searches, outcomes),
        states.last().wf(),
        states[0].filtered,
        states[0].query.lower_bound is None,
        states[0].query.upper_bound is None,
        states[0].lists_eligible(indices, eligible),
        after.settles(states.last(), indices, fell_back),
        after.finishes(fell_back, finish),
        returns_rows(finish, after.query, measured, addresses, row_ids, returned),
    ensures
        returned.len() == smaller(states[0].query.k as nat, eligible.len()),
        addresses.no_duplicates(),
        forall|i: int|
            0 <= i < addresses.len() ==> states[0].eligible(indices, #[trigger] addresses[i]),
        forall|r: int|
            0 <= r < returned.len() ==> row_ids.contains((#[trigger] returned[r]).row_address),
{
    let first = states[0];
    let last = states.last();
    collected_candidates_are_eligible(states, indices, searches, outcomes);
    assert(last.lists_eligible(indices, eligible)) by {
        assert forall|address: u64| #[trigger]
            eligible.contains(address) <==> last.eligible(indices, address) by {
            assert(eligible.contains(address) <==> first.eligible(indices, address));
        }
    }
    filtered_queries_return_all_they_can(
        last,
        after,
        indices,
        fell_back,
        finish,
        measured,
        addresses,
        row_ids,
        returned,
        eligible,
    );
    assert forall|i: int| 0 <= i < addresses.len() implies first.eligible(
        indices,
        #[trigger] addresses[i],
    ) by {
        assert(last.eligible(indices, addresses[i]));
    }
}

} // verus!
