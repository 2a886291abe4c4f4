//! What probing finds when it leaves out no centroid.

use crate::adaptive::{
    document_len, plan_for, CentroidPlan, EligibleCentroidDecision, EligibleSet, Probing,
};
use crate::eligibility::Eligibility;
use crate::index::{all_below, built_postings_are_posting_lists, built_segment, Segment};
use crate::matrix::Grid;
use crate::pipeline::{
    direct_scoring_matches_untruncated_search, final_hits, scored_by, shortlisted,
};
use crate::postings::{
    document_codes, postings_name_the_documents_of_a_centroid, strictly_increasing,
};
use crate::search::{
    all_centroids, best_centroids, candidates, candidates_are_posted_and_visible, exact_count,
    in_order_lists_the_set, increasing_sequence_is_unique, probed_centroids, probed_documents,
    probes, probes_are_best_allowed, ranked, scored_centroids, token_probes, visible,
    PlaidSearchParams, RankedCentroid,
};
use crate::sort::{ascending, ascending_is_sorted_permutation};
use vstd::prelude::*;

verus! {

/// The posting lists of a segment are those of its token codes.
pub open spec fn is_built(segment: Segment) -> bool {
    segment == built_segment(
        segment.centroids,
        segment.codebook,
        segment.row_addresses,
        segment.document_offsets,
        segment.token_codes,
        segment.packed_residuals,
        segment.exact_store,
    )
}

/// In a built segment a centroid posts the documents that use it, and no others.
pub proof fn centroids_post_their_documents(segment: Segment, centroid: u32, document: u32)
    requires
        segment.wf(),
        is_built(segment),
        centroid < segment.centroids.rows,
    ensures
        segment.posted(centroid as int).contains(document) <==> document < segment.documents()
            && segment.codes_of(document as int).contains(centroid),
{
    built_postings_are_posting_lists(segment, centroid as int);
    postings_name_the_documents_of_a_centroid(
        segment.document_offsets,
        segment.token_codes,
        centroid as int,
        segment.documents(),
    );
    assert(document < segment.documents() ==> segment.codes_of(document as int) == document_codes(
        segment.document_offsets,
        segment.token_codes,
        document as int,
    ));
}

/// Without a threshold, a query that probes as many centroids as are allowed
/// probes all of them.
pub proof fn enough_probes_select_every_allowed_centroid(
    scores: Grid,
    allowed: Seq<u32>,
    count: nat,
    tokens: nat,
    centroid: u32,
)
    requires
        count >= allowed.len(),
        tokens > 0,
        allowed.contains(centroid),
    ensures
        probes(scores, allowed, count, None, tokens).contains(centroid),
{
    let row = scores.row(tokens - 1);
    let own = RankedCentroid { score: row[centroid as int], centroid };
    let all = scored_centroids(row, allowed);
    ascending_is_sorted_permutation(all);
    let i = choose|i: int| 0 <= i < allowed.len() && allowed[i] == centroid;
    assert(all[i] == own);
    assert(ascending(all).contains(own));
    assert(best_centroids(row, allowed, count) =~= ascending(all));
    assert(token_probes(row, allowed, count, None).contains(centroid));
}

/// A run without a threshold that probes every allowed centroid finds every
/// wanted document that uses one of them, and no other document.
pub proof fn probing_all_finds_all(probing: Probing, nprobe: nat, document: u32)
    requires
        probing.segment.wf(),
        is_built(probing.segment),
        probing.threshold is None,
        probing.scores.rows > 0,
        nprobe >= probing.allowed.len(),
        all_below(probing.allowed, probing.segment.centroids.rows),
    ensures
        probing.found(nprobe).contains(document) <==> document < probing.segment.documents()
            && (probing.wanted)(document) && exists|code: u32|
            probing.allowed.contains(code) && #[trigger] probing.segment.codes_of(
                document as int,
            ).contains(code),
{
    let segment = probing.segment;
    let selected = probing.selected(nprobe);
    let codes = segment.codes_of(document as int);
    in_order_lists_the_set(probing.selected_set(nprobe));
    candidates_are_posted_and_visible(segment, selected, probing.wanted, document);
    if probing.found(nprobe).contains(document) {
        let i = choose|i: int|
            0 <= i < selected.len() && #[trigger] segment.posted(selected[i] as int).contains(
                document,
            );
        assert(selected.contains(selected[i]));
        probes_are_best_allowed(
            probing.scores,
            probing.allowed,
            nprobe,
            probing.threshold,
            probing.scores.rows,
            selected[i],
        );
        let place = choose|place: int|
            0 <= place < probing.allowed.len() && probing.allowed[place] == selected[i];
        assert(probing.allowed[place] < segment.centroids.rows);
        centroids_post_their_documents(segment, selected[i], document);
        assert(codes.contains(selected[i]));
    }
    if document < segment.documents() && (probing.wanted)(document) && exists|code: u32|
        probing.allowed.contains(code) && #[trigger] codes.contains(code) {
        let code = choose|code: u32|
            probing.allowed.contains(code) && #[trigger] codes.contains(code);
        let place = choose|place: int|
            0 <= place < probing.allowed.len() && probing.allowed[place] == code;
        assert(probing.allowed[place] < segment.centroids.rows);
        enough_probes_select_every_allowed_centroid(
            probing.scores,
            probing.allowed,
            nprobe,
            probing.scores.rows,
            code,
        );
        assert(selected.contains(code));
        let i = choose|i: int| 0 <= i < selected.len() && selected[i] == code;
        centroids_post_their_documents(segment, code, document);
        assert(segment.posted(selected[i] as int).contains(document));
    }
}

/// A document with tokens uses a centroid of the segment.
proof fn documents_use_centroids(segment: Segment, document: u32, code: u32)
    requires
        segment.wf(),
        document < segment.documents(),
        segment.codes_of(document as int).contains(code),
    ensures
        code < segment.centroids.rows,
{
    let codes = segment.codes_of(document as int);
    let i = choose|i: int| 0 <= i < codes.len() && codes[i] == code;
    let start = segment.document_start(document as int);
    assert(segment.document_offsets[document as int] <= segment.document_offsets[document + 1]);
    assert(segment.document_offsets[document + 1]
        <= segment.document_offsets[segment.documents() as int]);
    assert(segment.token_codes[start + i] == code);
}

/// Every centroid of a segment is among all of them.
proof fn all_centroids_are_there(count: nat)
    requires
        count <= 0x1_0000_0000,
    ensures
        all_below(all_centroids(count), count),
        forall|code: u32| #[trigger] all_centroids(count).contains(code) <==> code < count,
{
    assert forall|code: u32| #[trigger] all_centroids(count).contains(code) <==> code < count by {
        if code < count {
            assert(all_centroids(count)[code as int] == code);
        }
    }
}

/// A search that probes every centroid of a built segment without a threshold
/// scores exactly the visible documents that have tokens.
pub proof fn exhaustive_search_finds_every_visible_document<E: Eligibility>(
    segment: Segment,
    scores: Grid,
    params: PlaidSearchParams,
    eligibility: E,
    document: u32,
)
    requires
        segment.wf(),
        is_built(segment),
        segment.centroids.rows <= 0x1_0000_0000,
        scores.columns == segment.centroids.rows,
        scores.rows > 0,
        params.n_ivf_probe >= segment.centroids.rows,
        params.centroid_score_threshold is None,
    ensures
        probed_documents(segment, scores, params, eligibility).contains(document) <==> document
            < segment.documents() && eligibility.admits(
            document,
            segment.row_addresses[document as int],
        ) && document_len(segment, document) > 0,
{
    let rows = segment.centroids.rows;
    let probing = Probing {
        segment,
        scores,
        allowed: all_centroids(rows),
        threshold: params.centroid_score_threshold,
        wanted: visible(segment, eligibility),
        ceiling: rows,
        desired: 0,
    };
    let nprobe = params.n_ivf_probe as nat;
    all_centroids_are_there(rows);
    probing_all_finds_all(probing, nprobe, document);
    assert(probing.selected(nprobe) == probed_centroids(scores, params));
    in_order_lists_the_set(probing.found(nprobe));
    if document < segment.documents() {
        let codes = segment.codes_of(document as int);
        if codes.len() > 0 {
            assert(codes.contains(codes[0]));
            documents_use_centroids(segment, document, codes[0]);
            assert(all_centroids(rows).contains(codes[0]));
        }
    }
}

/// A run without a threshold that probes every centroid of the eligible
/// documents finds every wanted document that has tokens, where the wanted
/// documents are among the eligible ones.
pub proof fn eligible_centroids_miss_nothing(
    probing: Probing,
    plan: CentroidPlan,
    eligible: EligibleSet,
    query_tokens: nat,
    n_ivf_probe: nat,
    nprobe: nat,
    document: u32,
)
    requires
        probing.segment.wf(),
        is_built(probing.segment),
        probing.threshold is None,
        probing.scores.rows > 0,
        eligible.fault(probing.segment) is None,
        plan == plan_for(plan.owner, probing.segment, eligible, query_tokens, n_ivf_probe),
        plan.decision == EligibleCentroidDecision::Enabled,
        probing.allowed == plan.centroids,
        nprobe >= plan.centroids.len(),
        (probing.wanted)(document) ==> (eligible.ordinals->0).contains(document),
    ensures
        probing.found(nprobe).contains(document) <==> document < probing.segment.documents()
            && (probing.wanted)(document) && document_len(probing.segment, document) > 0,
{
    let segment = probing.segment;
    let ordinals = eligible.ordinals->0;
    in_order_lists_the_set(eligible.centroids(segment));
    assert forall|i: int| 0 <= i < plan.centroids.len() implies #[trigger] plan.centroids[i]
        < segment.centroids.rows by {
        let code = plan.centroids[i];
        assert(plan.centroids.contains(code));
        let k = choose|k: int|
            0 <= k < ordinals.len() && #[trigger] segment.codes_of(ordinals[k] as int).contains(
                code,
            );
        assert(ordinals[k] <= ordinals.last());
        documents_use_centroids(segment, ordinals[k], code);
    }
    probing_all_finds_all(probing, nprobe, document);
    if document < segment.documents() && (probing.wanted)(document) {
        let codes = segment.codes_of(document as int);
        if codes.len() > 0 {
            let k = choose|k: int| 0 <= k < ordinals.len() && ordinals[k] == document;
            assert(segment.codes_of(ordinals[k] as int).contains(codes[0]));
            assert(eligible.centroids(segment).contains(codes[0]));
            assert(plan.centroids.contains(codes[0]));
        }
    }
}

/// Scoring all visible documents with tokens directly gives the hits of a search
/// that probes every centroid and whose budgets truncate nothing.
pub proof fn direct_scoring_is_exhaustive_search<E: Eligibility>(
    segment: Segment,
    scores: Grid,
    params: PlaidSearchParams,
    eligibility: E,
    documents: Seq<u32>,
    approximate: spec_fn(u32) -> u32,
    exact: spec_fn(u32) -> u32,
)
    requires
        segment.wf(),
        is_built(segment),
        segment.centroids.rows <= 0x1_0000_0000,
        scores.columns == segment.centroids.rows,
        scores.rows > 0,
        params.n_ivf_probe >= segment.centroids.rows,
        params.centroid_score_threshold is None,
        strictly_increasing(documents),
        forall|document: u32| #[trigger]
            documents.contains(document) <==> document < segment.documents() && eligibility.admits(
                document,
                segment.row_addresses[document as int],
            ) && document_len(segment, document) > 0,
        exact_count(params, documents.len()) == documents.len(),
        params.top_k >= documents.len(),
    ensures
        probed_documents(segment, scores, params, eligibility) == documents,
        final_hits(
            segment,
            scored_by(
                shortlisted(
                    segment,
                    scored_by(probed_documents(segment, scores, params, eligibility), approximate),
                    params,
                ),
                exact,
            ),
            params,
        ) == ranked(segment, scored_by(documents, exact)),
{
    let found = probed_documents(segment, scores, params, eligibility);
    in_order_lists_the_set(
        candidates(segment, probed_centroids(scores, params), visible(segment, eligibility)),
    );
    assert forall|document: u32| #[trigger] found.contains(document) <==> documents.contains(
        document,
    ) by {
        exhaustive_search_finds_every_visible_document(
            segment,
            scores,
            params,
            eligibility,
            document,
        );
    }
    assert(found.to_set() =~= documents.to_set());
    increasing_sequence_is_unique(found, documents);
    direct_scoring_matches_untruncated_search(segment, documents, approximate, exact, params);
}

} // verus!
