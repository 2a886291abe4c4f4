//! Which way a segment is searched.

use crate::config::DirectResidualConfig;
use crate::database::{DatabaseError, DatabaseResult, RowAddrMask, Trouble};
use crate::index::Segment;
use crate::pipeline::{
    direct_scoring_matches_untruncated_search, final_hits, scored_by, shortlisted,
};
use crate::search::{
    exact_budgets_cover_the_results, exact_count, ranked, smaller, PlaidSearchParams,
};
use crate::vector_index::{
    at_least_both, budgets_cover_the_request, candidate_budgets, listed_ordinals,
    plaid_search_params, BoundedEligibleOrdinals, PlaidVectorIndex, Query,
    PLAID_DEFAULT_DECOMPRESS_DOCUMENTS,
};
use vstd::prelude::*;

verus! {

/// Whether a query is answered from the index alone or refined with the stored
/// vectors.
#[derive(Clone, Copy, Debug, PartialEq, Eq, Structural)]
pub enum PlaidExecutionMode {
    IndexOnly,
    Exact { raw_refinement_budget: usize },
}

impl PlaidExecutionMode {
    /// How many rows are refined.
    pub open spec fn budget(self) -> nat {
        match self {
            PlaidExecutionMode::IndexOnly => 0,
            PlaidExecutionMode::Exact { raw_refinement_budget } => raw_refinement_budget as nat,
        }
    }

    /// How many candidates are asked for.
    pub open spec fn requested(self, top_k: nat) -> nat {
        at_least_both(self.budget(), top_k)
    }

    /// The mode that a query asks for.
    pub fn try_from_query(query: &Query) -> (result: DatabaseResult<PlaidExecutionMode>)
        ensures
            match result {
                Ok(PlaidExecutionMode::IndexOnly) => query.refine_factor is None,
                Ok(PlaidExecutionMode::Exact { raw_refinement_budget }) => query.refine_factor
                    is Some && query.refine_factor->0 > 0 && raw_refinement_budget == query.k
                    * query.refine_factor->0,
                Err(error) => query.refine_factor is Some && if query.refine_factor->0 == 0 {
                    error@ == Trouble::InvalidInput("PLAID refine factor must be positive"@)
                } else {
                    query.k * query.refine_factor->0 > usize::MAX && error@
                        == Trouble::InvalidInput("PLAID raw refinement budget overflow"@)
                },
            },
    {
        match query.refine_factor {
            None => Ok(PlaidExecutionMode::IndexOnly),
            Some(factor) => {
                if factor == 0 {
                    return Err(
                        DatabaseError::invalid_input("PLAID refine factor must be positive"),
                    );
                }
                match query.k.checked_mul(factor as usize) {
                    Some(raw_refinement_budget) => Ok(
                        PlaidExecutionMode::Exact { raw_refinement_budget },
                    ),
                    None => Err(
                        DatabaseError::invalid_input("PLAID raw refinement budget overflow"),
                    ),
                }
            },
        }
    }

    /// The name of the mode in a query plan.
    pub fn name(self) -> (result: &'static str)
        ensures
            result@ == match self {
                PlaidExecutionMode::IndexOnly => "index_only"@,
                PlaidExecutionMode::Exact { .. } => "exact"@,
            },
    {
        match self {
            PlaidExecutionMode::IndexOnly => "index_only",
            PlaidExecutionMode::Exact { .. } => "exact",
        }
    }

    /// How many rows are refined.
    pub fn raw_refinement_budget(self) -> (result: usize)
        ensures
            result == self.budget(),
    {
        match self {
            PlaidExecutionMode::IndexOnly => 0,
            PlaidExecutionMode::Exact { raw_refinement_budget } => raw_refinement_budget,
        }
    }

    /// How many candidates are asked for.
    pub fn requested_candidates(self, top_k: usize) -> (result: usize)
        ensures
            result == self.requested(top_k as nat),
    {
        let budget: usize = self.raw_refinement_budget();
        if budget < top_k {
            top_k
        } else {
            budget
        }
    }

    /// Documents that are reconstructed at most in each segment.
    pub fn core_residual_budget(self, top_k: usize) -> (result: usize)
        ensures
            result == at_least_both(
                self.requested(top_k as nat),
                PLAID_DEFAULT_DECOMPRESS_DOCUMENTS as nat,
            ),
            result >= 1024,
            result >= top_k,
            result == 1024 || result == self.requested(top_k as nat),
    {
        let requested: usize = self.requested_candidates(top_k);
        if requested < PLAID_DEFAULT_DECOMPRESS_DOCUMENTS {
            PLAID_DEFAULT_DECOMPRESS_DOCUMENTS
        } else {
            requested
        }
    }
}

/// Why a segment is or is not searched directly.
#[derive(Clone, Copy, Debug, PartialEq, Eq, Structural)]
pub enum DirectResidualDecision {
    Direct,
    Disabled,
    /// The query sets a largest number of probes.
    ExplicitProbeCeiling,
    /// The query has no filter.
    Unfiltered,
    /// The filter does not list its rows.
    NonEnumerable,
    /// The filter lists no row of the segment.
    EmptySegment,
    /// The filter lists too many rows of the segment.
    OverLimit,
    /// A search by probing would drop some of the listed rows.
    BudgetMismatch,
    /// A listed document has no tokens.
    EmptyTokens,
}

/// A filter that selects few rows is scored exactly: no more rows than are
/// asked for.
pub fn small_filter_exact_fallback(filter_max_len: Option<u64>, requested_candidates: usize) -> (result:
    bool)
    ensures
        result == (filter_max_len is Some && 0 < filter_max_len->0 <= requested_candidates),
{
    match filter_max_len {
        Some(count) => count > 0 && count <= requested_candidates as u64,
        None => false,
    }
}

/// What already rules out a direct search before the filter is looked at.
pub open spec fn precheck(
    config: DirectResidualConfig,
    maximum_nprobes: Option<usize>,
    filtered_query: bool,
) -> Option<DirectResidualDecision> {
    if !config.enabled {
        Some(DirectResidualDecision::Disabled)
    } else if maximum_nprobes is Some {
        Some(DirectResidualDecision::ExplicitProbeCeiling)
    } else if !filtered_query {
        Some(DirectResidualDecision::Unfiltered)
    } else {
        None
    }
}

/// What already rules out a direct search before the filter is looked at.
///
/// Even a ceiling equal to the current centroid count is an explicit user
/// contract, which the direct search would ignore.
pub fn direct_residual_precheck(
    config: DirectResidualConfig,
    maximum_nprobes: Option<usize>,
    filtered_query: bool,
) -> (result: Option<DirectResidualDecision>)
    ensures
        result == precheck(config, maximum_nprobes, filtered_query),
{
    if !config.enabled {
        return Some(DirectResidualDecision::Disabled);
    }
    if maximum_nprobes.is_some() {
        return Some(DirectResidualDecision::ExplicitProbeCeiling);
    }
    if !filtered_query {
        return Some(DirectResidualDecision::Unfiltered);
    }
    None
}

/// A search by probing that finds all eligible documents drops none of them:
/// it approximates all, reconstructs all and returns all.
pub open spec fn keeps_all(params: PlaidSearchParams, documents: nat) -> bool {
    &&& params.centroid_score_threshold is None
    &&& params.top_k == documents
    &&& documents <= params.n_full_scores
    &&& exact_count(params, documents) == documents
}

/// The budgets of a search by probing, where they keep all eligible documents.
///
/// The number of probes drops no candidate that was found.
pub fn direct_residual_budget_params(requested_candidates: usize, eligible_documents: usize) -> (result:
    Option<PlaidSearchParams>)
    ensures
        ({
            let params = candidate_budgets(
                requested_candidates as nat,
                eligible_documents as nat,
                1,
            );
            result == if keeps_all(params, eligible_documents as nat) {
                Some(params)
            } else {
                None
            }
        }),
{
    let params = plaid_search_params(requested_candidates, eligible_documents, 1);
    let desired_candidates: usize = least(eligible_documents, params.top_k);
    let approximate_retained: usize = least(eligible_documents, params.n_full_scores);
    let quarter: usize = params.n_full_scores / 4;
    let wanted: usize = if quarter < params.top_k {
        params.top_k
    } else {
        quarter
    };
    let residual_scored: usize = least(wanted, approximate_retained);
    let final_retained: usize = least(params.top_k, residual_scored);
    if params.centroid_score_threshold.is_none() && params.top_k == eligible_documents
        && desired_candidates == eligible_documents && approximate_retained == eligible_documents
        && residual_scored == eligible_documents && final_retained == eligible_documents {
        Some(params)
    } else {
        None
    }
}

fn least(left: usize, right: usize) -> (result: usize)
    ensures
        result == smaller(left as nat, right as nat),
{
    if left < right {
        left
    } else {
        right
    }
}

/// What is decided from the number of eligible documents of a segment, where it
/// is known.
pub open spec fn count_decision(
    config: DirectResidualConfig,
    requested_candidates: nat,
    enumerable_documents: Option<nat>,
) -> DirectResidualDecision {
    if enumerable_documents is None {
        DirectResidualDecision::NonEnumerable
    } else if enumerable_documents->0 == 0 {
        DirectResidualDecision::EmptySegment
    } else if enumerable_documents->0 > config.max_documents {
        DirectResidualDecision::OverLimit
    } else if !keeps_all(
        candidate_budgets(requested_candidates, enumerable_documents->0, 1),
        enumerable_documents->0,
    ) {
        DirectResidualDecision::BudgetMismatch
    } else {
        DirectResidualDecision::Direct
    }
}

/// Decides from the number of eligible documents of a segment.
pub fn direct_residual_count_decision(
    config: DirectResidualConfig,
    requested_candidates: usize,
    enumerable_documents: Option<usize>,
) -> (result: DirectResidualDecision)
    ensures
        result == count_decision(
            config,
            requested_candidates as nat,
            match enumerable_documents {
                Some(count) => Some(count as nat),
                None => None,
            },
        ),
{
    let eligible_documents: usize = match enumerable_documents {
        Some(count) => count,
        None => {
            return DirectResidualDecision::NonEnumerable;
        },
    };
    if eligible_documents == 0 {
        return DirectResidualDecision::EmptySegment;
    }
    if eligible_documents > config.max_documents {
        return DirectResidualDecision::OverLimit;
    }
    if direct_residual_budget_params(requested_candidates, eligible_documents).is_none() {
        return DirectResidualDecision::BudgetMismatch;
    }
    DirectResidualDecision::Direct
}

/// A segment is searched directly only where a search by probing that finds all
/// eligible documents would return all of them.
pub proof fn direct_search_drops_nothing(
    config: DirectResidualConfig,
    requested_candidates: nat,
    documents: nat,
)
    requires
        count_decision(config, requested_candidates, Some(documents))
            == DirectResidualDecision::Direct,
    ensures
        0 < documents <= config.max_documents,
        ({
            let params = candidate_budgets(requested_candidates, documents, 1);
            &&& exact_count(params, documents) == documents
            &&& params.top_k == documents
        }),
{
}

/// A segment that is searched directly gives the hits that probing gives where
/// probing finds the same documents.
pub proof fn direct_search_matches_probing(
    segment: Segment,
    documents: Seq<u32>,
    approximate: spec_fn(u32) -> u32,
    exact: spec_fn(u32) -> u32,
    config: DirectResidualConfig,
    requested_candidates: nat,
)
    requires
        count_decision(config, requested_candidates, Some(documents.len()))
            == DirectResidualDecision::Direct,
    ensures
        ({
            let params = candidate_budgets(requested_candidates, documents.len(), 1);
            final_hits(
                segment,
                scored_by(shortlisted(segment, scored_by(documents, approximate), params), exact),
                params,
            ) == ranked(segment, scored_by(documents, exact))
        }),
{
    let params = candidate_budgets(requested_candidates, documents.len(), 1);
    direct_search_drops_nothing(config, requested_candidates, documents.len());
    direct_scoring_matches_untruncated_search(segment, documents, approximate, exact, params);
}

/// Up to the default limit, the number of eligible documents alone never rules
/// out a direct search.
pub proof fn default_limit_is_within_budgets(requested_candidates: nat, documents: nat)
    requires
        requested_candidates <= usize::MAX,
        0 < documents <= PLAID_DEFAULT_DECOMPRESS_DOCUMENTS,
    ensures
        keeps_all(candidate_budgets(requested_candidates, documents, 1), documents),
{
}

/// How a segment is searched.
#[derive(Debug)]
pub enum DirectResidualPlan {
    /// All listed documents are scored.
    Direct { document_ordinals: Vec<u32>, params: PlaidSearchParams },
    /// The filter lists no row of the segment.
    Empty,
    /// The segment is probed, for this reason.
    Legacy(DirectResidualDecision),
}

/// Decides how a segment is searched.
pub fn direct_residual_plan(
    config: DirectResidualConfig,
    query: &Query,
    requested_candidates: usize,
    filtered_query: bool,
    index: &PlaidVectorIndex,
    mask: &RowAddrMask,
) -> (result: DirectResidualPlan)
    ensures
        ({
            let early = precheck(config, query.maximum_nprobes, filtered_query);
            let listed = match mask.listed() {
                Some(addresses) => Some(listed_ordinals(index@, addresses)),
                None => None,
            };
            let decision = count_decision(
                config,
                requested_candidates as nat,
                match listed {
                    Some(list) => Some(list.len()),
                    None => None,
                },
            );
            match result {
                DirectResidualPlan::Direct { document_ordinals, params } => {
                    &&& early is None
                    &&& decision == DirectResidualDecision::Direct
                    &&& listed == Some(document_ordinals@)
                    &&& params == candidate_budgets(
                        requested_candidates as nat,
                        document_ordinals@.len(),
                        1,
                    )
                },
                DirectResidualPlan::Empty => early is None && decision
                    == DirectResidualDecision::EmptySegment,
                DirectResidualPlan::Legacy(reason) => if early is Some {
                    early == Some(reason)
                } else {
                    decision == reason && reason != DirectResidualDecision::Direct && reason
                        != DirectResidualDecision::EmptySegment
                },
            }
        }),
{
    if let Some(decision) = direct_residual_precheck(config, query.maximum_nprobes, filtered_query) {
        return DirectResidualPlan::Legacy(decision);
    }
    let document_ordinals = match index.bounded_eligible_document_ordinals(
        mask,
        config.max_documents,
    ) {
        BoundedEligibleOrdinals::NonEnumerable => {
            return DirectResidualPlan::Legacy(DirectResidualDecision::NonEnumerable);
        },
        BoundedEligibleOrdinals::OverLimit => {
            return DirectResidualPlan::Legacy(DirectResidualDecision::OverLimit);
        },
        BoundedEligibleOrdinals::WithinLimit(document_ordinals) => document_ordinals,
    };
    match direct_residual_count_decision(
        config,
        requested_candidates,
        Some(document_ordinals.len()),
    ) {
        DirectResidualDecision::EmptySegment => DirectResidualPlan::Empty,
        DirectResidualDecision::Direct => match direct_residual_budget_params(
            requested_candidates,
            document_ordinals.len(),
        ) {
            Some(params) => DirectResidualPlan::Direct { document_ordinals, params },
            None => DirectResidualPlan::Legacy(DirectResidualDecision::BudgetMismatch),
        },
        decision => DirectResidualPlan::Legacy(decision),
    }
}

/// A filtered query that found fewer rows than it could return is scored
/// exactly.
pub fn underfilled_filter_exact_fallback(
    filtered_query: bool,
    ann_candidates: usize,
    top_k: usize,
    eligible_documents: usize,
) -> (result: bool)
    ensures
        result == (filtered_query && ann_candidates < smaller(
            top_k as nat,
            eligible_documents as nat,
        )),
{
    filtered_query && ann_candidates < least(top_k, eligible_documents)
}

/// As many candidates are asked for as are refined or returned, whichever is more.
pub proof fn requests_cover_results_and_refinement(mode: PlaidExecutionMode, top_k: nat)
    ensures
        mode.requested(top_k) >= top_k,
        match mode {
            PlaidExecutionMode::IndexOnly => mode.requested(top_k) == top_k,
            PlaidExecutionMode::Exact { raw_refinement_budget } => mode.requested(top_k)
                >= raw_refinement_budget && (mode.requested(top_k) == top_k || mode.requested(top_k)
                == raw_refinement_budget),
        },
{
}

/// A direct search is considered exactly where it is enabled, the query sets no
/// largest number of probes and has a filter. Otherwise the first of these that is
/// missing is given as the reason.
pub proof fn direct_search_needs_a_plain_filter(
    config: DirectResidualConfig,
    maximum_nprobes: Option<usize>,
    filtered_query: bool,
)
    ensures
        ({
            let early = precheck(config, maximum_nprobes, filtered_query);
            &&& early is None <==> config.enabled && maximum_nprobes is None && filtered_query
            &&& early == Some(DirectResidualDecision::Disabled) <==> !config.enabled
            &&& early == Some(DirectResidualDecision::ExplicitProbeCeiling) <==> config.enabled
                && maximum_nprobes is Some
            &&& early == Some(DirectResidualDecision::Unfiltered) <==> config.enabled
                && maximum_nprobes is None && !filtered_query
        }),
{
}

/// A segment is searched directly exactly where the filter lists some of its
/// documents, no more than the limit, and no more than a search by probing would
/// return: those asked for, or 1024 where fewer are asked for.
pub proof fn direct_search_needs_few_documents(
    config: DirectResidualConfig,
    requested_candidates: nat,
    documents: Option<nat>,
)
    requires
        requested_candidates <= usize::MAX,
        documents is Some ==> documents->0 <= usize::MAX,
    ensures
        ({
            let decision = count_decision(config, requested_candidates, documents);
            &&& decision == DirectResidualDecision::NonEnumerable <==> documents is None
            &&& decision == DirectResidualDecision::EmptySegment <==> documents == Some(0nat)
            &&& decision == DirectResidualDecision::OverLimit <==> documents is Some
                && documents->0 > 0 && documents->0 > config.max_documents
            &&& decision == DirectResidualDecision::Direct <==> documents is Some && 0
                < documents->0 <= config.max_documents && (documents->0 <= requested_candidates
                || documents->0 <= 1024)
            &&& decision == DirectResidualDecision::BudgetMismatch <==> documents is Some && 0
                < documents->0 <= config.max_documents && documents->0 > requested_candidates
                && documents->0 > 1024
        }),
{
    if documents is Some {
        let count = documents->0;
        budgets_cover_the_request(requested_candidates, count, 1);
        exact_budgets_cover_the_results(
            candidate_budgets(requested_candidates, count, 1),
            count,
        );
    }
}

} // verus!
