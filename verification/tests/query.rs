use arrow_array::{Array, FixedSizeListArray, Float32Array, Int32Array};
use arrow_buffer::NullBuffer;
use arrow_schema::{DataType, Field};
use lance_plaid::codec::ResidualQuantizer;
use lance_plaid::config::{parse_bool, parse_number, DirectResidualConfig, EnvironmentValue};
use lance_plaid::database::{new_from_parts, AddressSet, DatabaseError, RowAddrMask};
use lance_plaid::exact::{exact_maxima, exact_scores, ExactMaxsimScorer, TokenArray};
use lance_plaid::exec::{
    index_only_result_row_ids, FilterMask, PlaidSearchExec, PreFilterSource, QueryExecution,
    QueryFinish, SegmentMetadata, SegmentSearch, SegmentSearchOutcome,
};
use lance_plaid::hits::{
    check_raw_vectors, finish_index_only, finish_refined, merge_segment_hits, rank_hits,
    rows_to_fetch, Candidates, ExactHit, ScoredRow,
};
use lance_plaid::index::{InstanceIds, PlaidIndex};
use lance_plaid::matrix::Matrix;
use lance_plaid::metrics::{add_duration, PlaidExecMetrics, ResidualQueryUsage, ResidualSegmentPath};
use lance_plaid::pipeline::{SearchAction, SearchEvent};
use lance_plaid::policy::{
    direct_residual_budget_params, direct_residual_count_decision, direct_residual_plan,
    direct_residual_precheck, small_filter_exact_fallback, underfilled_filter_exact_fallback,
    DirectResidualDecision, DirectResidualPlan, PlaidExecutionMode,
};
use lance_plaid::row_mask::{plaid_address_mask, RowIdIndex};
use lance_plaid::search::{PlaidSearchStats, ScoredDocument, SearchHit};
use lance_plaid::vector_index::{
    collect_bounded_document_ordinals, is_plaid_index_metadata, open_plaid_index,
    plaid_index_details, plaid_search_params, query_to_array, BoundedEligibleOrdinals, PlaidIndexParams,
    PlaidVectorIndex, Query,
};
use std::cell::Cell;
use std::sync::Arc;

fn bits(values: &[f32]) -> Vec<u32> {
    values.iter().map(|value| value.to_bits()).collect()
}

fn matrix(rows: usize, columns: usize, values: &[f32]) -> Matrix {
    Matrix::from_shape_vec(rows, columns, bits(values)).unwrap()
}

fn query_for(k: usize) -> Query {
    Query {
        k,
        refine_factor: None,
        minimum_nprobes: 1,
        maximum_nprobes: None,
        lower_bound: None,
        upper_bound: None,
    }
}

fn listed(addresses: Vec<u64>) -> AddressSet {
    AddressSet {
        addresses,
        whole_fragments: Vec::new(),
    }
}

fn whole_fragment(fragment: u32) -> AddressSet {
    AddressSet {
        addresses: Vec::new(),
        whole_fragments: vec![fragment],
    }
}

fn everything() -> RowAddrMask {
    RowAddrMask::BlockList(listed(Vec::new()))
}

fn hit(document_ordinal: u32, row_address: u64, score: f32) -> SearchHit {
    SearchHit {
        document_ordinal,
        row_address,
        score: score.to_bits(),
    }
}

#[test]
fn exact_filter_fallback_policy_tracks_budget_and_true_underfill() {
    assert_eq!(PlaidExecutionMode::IndexOnly.requested_candidates(10), 10);
    assert_eq!(PlaidExecutionMode::IndexOnly.raw_refinement_budget(), 0);
    let exact = PlaidExecutionMode::Exact {
        raw_refinement_budget: 50,
    };
    assert_eq!(exact.requested_candidates(10), 50);
    assert_eq!(exact.raw_refinement_budget(), 50);

    assert!(small_filter_exact_fallback(Some(10), 50));
    assert!(small_filter_exact_fallback(Some(50), 50));
    assert!(!small_filter_exact_fallback(Some(0), 50));
    assert!(!small_filter_exact_fallback(Some(51), 50));
    assert!(!small_filter_exact_fallback(Some(1_000), 50));
    assert!(!small_filter_exact_fallback(None, 50));

    assert!(underfilled_filter_exact_fallback(true, 3, 10, 10));
    assert!(underfilled_filter_exact_fallback(true, 4, 10, 5));
    assert!(!underfilled_filter_exact_fallback(true, 5, 10, 5));
    assert!(!underfilled_filter_exact_fallback(true, 10, 10, 100));
    assert!(!underfilled_filter_exact_fallback(false, 3, 10, 10));
}

#[test]
fn direct_residual_config_values_are_reproducible_and_fail_closed() {
    assert_eq!(
        DirectResidualConfig::from_values(None, None).unwrap(),
        DirectResidualConfig::default()
    );
    for enabled in ["1", "true", "YES", "on"] {
        assert_eq!(
            DirectResidualConfig::from_values(Some(enabled), Some("64")).unwrap(),
            DirectResidualConfig {
                enabled: true,
                max_documents: 64,
            }
        );
    }
    for disabled in ["0", "false", "No", "OFF"] {
        assert_eq!(
            DirectResidualConfig::from_values(Some(disabled), Some("0")).unwrap(),
            DirectResidualConfig {
                enabled: false,
                max_documents: 0,
            }
        );
    }
    for (enabled, maximum) in [(Some("maybe"), None), (None, Some("-1"))] {
        let error = DirectResidualConfig::from_values(enabled, maximum).unwrap_err();
        assert!(error
            .to_string()
            .contains("invalid LANCE_PLAID_DIRECT_RESIDUAL"));
    }
}

#[test]
fn settings_that_cannot_be_read_are_shown_quoted() {
    let error = DirectResidualConfig::from_values(Some("may\"be"), None).unwrap_err();
    assert_eq!(
        error.to_string(),
        "invalid LANCE_PLAID_DIRECT_RESIDUAL_ENABLED=\"may\\\"be\"; expected true/false"
    );
    let error = DirectResidualConfig::from_values(None, Some("1 000")).unwrap_err();
    assert_eq!(
        error.to_string(),
        "invalid LANCE_PLAID_DIRECT_RESIDUAL_MAX_DOCUMENTS=\"1 000\"; expected a non-negative integer"
    );
}

#[test]
fn truth_values_and_numbers_are_read() {
    assert_eq!(parse_bool(" \tTrue\n"), Some(true));
    assert_eq!(parse_bool("\u{2003}off\u{a0}"), Some(false));
    assert_eq!(parse_bool("o n"), None);
    assert_eq!(parse_bool(""), None);
    assert_eq!(parse_number("0"), Some(0));
    assert_eq!(parse_number("+17"), Some(17));
    assert_eq!(parse_number("00042"), Some(42));
    assert_eq!(parse_number("18446744073709551615"), Some(usize::MAX));
    assert_eq!(parse_number("18446744073709551616"), None);
    assert_eq!(parse_number("+"), None);
    assert_eq!(parse_number(""), None);
    assert_eq!(parse_number(" 1"), None);
    assert_eq!(parse_number("-0"), None);
}

#[test]
fn settings_come_from_the_environment() {
    let config = DirectResidualConfig::from_env(
        EnvironmentValue::Text("no".to_string()),
        EnvironmentValue::Missing,
    )
    .unwrap();
    assert_eq!(
        config,
        DirectResidualConfig {
            enabled: false,
            max_documents: 1024,
        }
    );
    assert_eq!(config.mode_name(), "disabled");
    let error =
        DirectResidualConfig::from_env(EnvironmentValue::Missing, EnvironmentValue::NotUnicode)
            .unwrap_err();
    assert_eq!(
        error.to_string(),
        "environment variable LANCE_PLAID_DIRECT_RESIDUAL_MAX_DOCUMENTS is not valid UTF-8"
    );
}

#[test]
fn direct_residual_policy_covers_every_gate_and_hard_cap_boundary() {
    let default = DirectResidualConfig::default();
    assert_eq!(
        direct_residual_precheck(
            DirectResidualConfig {
                enabled: false,
                ..default
            },
            None,
            true,
        ),
        Some(DirectResidualDecision::Disabled)
    );
    assert_eq!(
        direct_residual_precheck(default, Some(1), true),
        Some(DirectResidualDecision::ExplicitProbeCeiling)
    );
    assert_eq!(
        direct_residual_precheck(default, None, false),
        Some(DirectResidualDecision::Unfiltered)
    );
    assert_eq!(direct_residual_precheck(default, None, true), None);

    assert_eq!(
        direct_residual_count_decision(default, 10, None),
        DirectResidualDecision::NonEnumerable
    );
    assert_eq!(
        direct_residual_count_decision(default, 10, Some(0)),
        DirectResidualDecision::EmptySegment
    );
    assert_eq!(
        direct_residual_count_decision(default, 10, Some(1024)),
        DirectResidualDecision::Direct
    );
    assert_eq!(
        direct_residual_count_decision(default, 10, Some(1025)),
        DirectResidualDecision::OverLimit
    );

    let cap64 = DirectResidualConfig {
        enabled: true,
        max_documents: 64,
    };
    assert_eq!(
        direct_residual_count_decision(cap64, 5_000, Some(64)),
        DirectResidualDecision::Direct
    );
    assert_eq!(
        direct_residual_count_decision(cap64, 5_000, Some(65)),
        DirectResidualDecision::OverLimit
    );
    assert_eq!(
        direct_residual_count_decision(
            DirectResidualConfig {
                enabled: true,
                max_documents: 0,
            },
            5_000,
            Some(1),
        ),
        DirectResidualDecision::OverLimit
    );
    assert_eq!(
        direct_residual_count_decision(
            DirectResidualConfig {
                enabled: true,
                max_documents: 2_048,
            },
            10,
            Some(1_025),
        ),
        DirectResidualDecision::BudgetMismatch
    );
}

#[test]
fn budgets_grow_with_the_request_and_stop_at_the_eligible_documents() {
    let params = plaid_search_params(10, 1_000_000, 7);
    assert_eq!(params.n_ivf_probe, 7);
    assert_eq!(params.top_k, 1024);
    assert_eq!(params.n_full_scores, 4096);
    assert_eq!(params.centroid_score_threshold, None);
    let params = plaid_search_params(5_000, 1_000_000, 1);
    assert_eq!(params.top_k, 5_000);
    assert_eq!(params.n_full_scores, 20_000);
    assert_eq!(plaid_search_params(10, 0, 1).top_k, 1);
    assert_eq!(
        plaid_search_params(usize::MAX, usize::MAX, 1).n_full_scores,
        usize::MAX
    );
    let params = direct_residual_budget_params(10, 64).unwrap();
    assert_eq!(params.top_k, 64);
    assert_eq!(params.n_full_scores, 4096);
    assert!(direct_residual_budget_params(10, 1_025).is_none());
}

fn assert_usage(
    paths: &[ResidualSegmentPath],
    expected_direct_queries: u64,
    expected_legacy_queries: u64,
    expected_direct_segments: u64,
    expected_legacy_segments: u64,
    expected_empty_segments: u64,
) {
    let mut metrics = PlaidExecMetrics::new();
    let mut usage = ResidualQueryUsage::default();
    for path in paths {
        usage.observe(*path);
        metrics.record_direct_residual_decision(match path {
            ResidualSegmentPath::Direct => DirectResidualDecision::Direct,
            ResidualSegmentPath::Legacy => DirectResidualDecision::Disabled,
            ResidualSegmentPath::Empty => DirectResidualDecision::EmptySegment,
        });
    }
    usage.record_query_metrics(&mut metrics);

    assert_eq!(metrics.direct_residual_query_count, expected_direct_queries);
    assert_eq!(metrics.legacy_residual_query_count, expected_legacy_queries);
    assert_eq!(
        metrics.direct_residual_segment_count,
        expected_direct_segments
    );
    assert_eq!(
        metrics.legacy_residual_segment_count,
        expected_legacy_segments
    );
    assert_eq!(
        metrics.direct_residual_empty_segment_count,
        expected_empty_segments
    );
}

#[test]
fn empty_segment_metrics_do_not_claim_direct_or_legacy_query_work() {
    assert_usage(
        &[ResidualSegmentPath::Empty, ResidualSegmentPath::Empty],
        0,
        0,
        0,
        0,
        2,
    );
    assert_usage(
        &[ResidualSegmentPath::Empty, ResidualSegmentPath::Direct],
        1,
        0,
        1,
        0,
        1,
    );
    assert_usage(
        &[ResidualSegmentPath::Empty, ResidualSegmentPath::Legacy],
        0,
        1,
        0,
        1,
        1,
    );
    assert_usage(
        &[
            ResidualSegmentPath::Empty,
            ResidualSegmentPath::Direct,
            ResidualSegmentPath::Legacy,
        ],
        1,
        1,
        1,
        1,
        1,
    );
}

#[test]
fn metrics_are_reported_under_their_names() {
    let mut metrics = PlaidExecMetrics::new();
    metrics.record_mode(PlaidExecutionMode::Exact {
        raw_refinement_budget: 50,
    });
    let mut stats = PlaidSearchStats::default();
    stats.posting_entries_read = 48;
    stats.sort_nanos = 17;
    metrics.record_core(&stats);
    let counts = metrics.counts();
    let times = metrics.times();
    assert_eq!(counts.len(), 48);
    assert_eq!(times.len(), 15);
    let count = |name: &str| {
        counts
            .iter()
            .find(|metric| metric.name == name)
            .map(|metric| metric.value)
    };
    assert_eq!(count("plaid_exact_refinement_queries"), Some(1));
    assert_eq!(count("plaid_raw_refinement_budget"), Some(50));
    assert_eq!(count("plaid_index_only_queries"), Some(0));
    assert_eq!(count("plaid_posting_entries"), Some(48));
    assert!(times
        .iter()
        .any(|metric| metric.name == "plaid_sort_time" && metric.value == 17));
}

#[test]
fn timers_count_every_duration() {
    let mut timer = 5;
    add_duration(&mut timer, 7);
    assert_eq!(timer, 12);
    add_duration(&mut timer, 0);
    assert_eq!(timer, 13);
    let mut last = u64::MAX;
    add_duration(&mut last, 0);
    assert_eq!(last, 0);

    let mut metrics = PlaidExecMetrics::new();
    let mut stats = PlaidSearchStats::default();
    stats.postings_nanos = 40;
    metrics.record_core(&stats);
    metrics.record_core(&stats);
    assert_eq!(metrics.postings, 80);
    assert_eq!(metrics.centroid, 2);
    assert_eq!(metrics.sort, 2);
    assert_eq!(metrics.direct_residual, 0);
}

#[test]
fn mixed_segment_hit_merge_keeps_best_score_and_deduplicates_addresses() {
    let mut candidates = Candidates::new();
    merge_segment_hits(&mut candidates, &vec![hit(0, 10, 1.0), hit(1, 20, 0.5)]);
    merge_segment_hits(
        &mut candidates,
        &vec![
            // A lower score for an overlapping address must not replace
            // the first segment's candidate.
            hit(7, 10, 0.75),
            // A higher score from either a direct or legacy segment wins.
            hit(8, 20, 0.875),
            hit(9, 30, 0.25),
        ],
    );
    assert_eq!(candidates.len(), 3);
    assert_eq!(candidates.get(10), Some(1.0_f32.to_bits()));
    assert_eq!(candidates.get(20), Some(0.875_f32.to_bits()));
    assert_eq!(candidates.get(30), Some(0.25_f32.to_bits()));
    assert_eq!(candidates.get(40), None);
}

#[test]
fn merging_does_not_depend_on_the_order_of_segments() {
    let first = vec![hit(0, 10, 1.0), hit(1, 20, 0.5)];
    let second = vec![hit(7, 10, 0.75), hit(8, 20, 0.875)];
    let mut forward = Candidates::new();
    merge_segment_hits(&mut forward, &first);
    merge_segment_hits(&mut forward, &second);
    let mut backward = Candidates::new();
    merge_segment_hits(&mut backward, &second);
    merge_segment_hits(&mut backward, &first);
    assert_eq!(
        rows_to_fetch(&forward, false, 2),
        rows_to_fetch(&backward, false, 2)
    );
    assert_eq!(rows_to_fetch(&forward, false, 2), vec![10, 20]);
    assert_eq!(rows_to_fetch(&forward, false, 1), vec![10]);
    assert_eq!(rows_to_fetch(&forward, true, 1), vec![10, 20]);
}

#[test]
fn stable_full_prefix_masks_translate_across_fragments_and_deletions() {
    let addresses = [
        new_from_parts(0, 0),
        new_from_parts(0, 1),
        new_from_parts(1, 0),
        new_from_parts(1, 1),
    ];
    // Row 1 is deleted. All stable IDs are in high-32-bit prefix zero even
    // though their current physical homes span two fragments.
    let index = RowIdIndex {
        row_ids: vec![0, 2, 3],
        addresses: vec![addresses[0], addresses[2], addresses[3]],
    };
    let allowed = plaid_address_mask(
        true,
        Some(&index),
        true,
        RowAddrMask::AllowList(whole_fragment(0)),
    )
    .unwrap();
    assert!(allowed.iter_addrs().is_some());
    assert!(allowed.selected(addresses[0]));
    assert!(!allowed.selected(addresses[1]));
    assert!(allowed.selected(addresses[2]));
    assert!(allowed.selected(addresses[3]));

    let blocked = plaid_address_mask(
        true,
        Some(&index),
        true,
        RowAddrMask::BlockList(whole_fragment(0)),
    )
    .unwrap();
    assert!(addresses.iter().all(|address| !blocked.selected(*address)));

    // Prefix one contains no stable IDs. A full-prefix block therefore
    // leaves every live row selected while the deleted physical row stays
    // invisible.
    let block_absent = plaid_address_mask(
        true,
        Some(&index),
        true,
        RowAddrMask::BlockList(whole_fragment(1)),
    )
    .unwrap();
    assert!(block_absent.selected(addresses[0]));
    assert!(!block_absent.selected(addresses[1]));
    assert!(block_absent.selected(addresses[2]));
    assert!(block_absent.selected(addresses[3]));
}

#[test]
fn listed_identifiers_translate_one_by_one() {
    let index = RowIdIndex {
        row_ids: vec![5, 6, 9],
        addresses: vec![300, 100, 200],
    };
    let allowed = plaid_address_mask(
        true,
        Some(&index),
        false,
        RowAddrMask::AllowList(listed(vec![5, 7, 9])),
    )
    .unwrap();
    assert_eq!(allowed.iter_addrs(), Some(&vec![200, 300]));
    let blocked = plaid_address_mask(
        true,
        Some(&index),
        false,
        RowAddrMask::BlockList(listed(vec![6])),
    )
    .unwrap();
    assert!(blocked.iter_addrs().is_none());
    assert!(!blocked.selected(100));
    assert!(blocked.selected(200));
    let unchanged = plaid_address_mask(
        false,
        None,
        true,
        RowAddrMask::AllowList(listed(vec![5, 7, 9])),
    )
    .unwrap();
    assert_eq!(unchanged.iter_addrs(), Some(&vec![5, 7, 9]));
    let error = plaid_address_mask(true, None, false, everything()).unwrap_err();
    assert_eq!(
        error.to_string(),
        "stable-row-id dataset has no row-id index"
    );
}

fn token_array(document: &FixedSizeListArray) -> TokenArray {
    let values = document.values();
    let floats = values.as_any().downcast_ref::<Float32Array>();
    TokenArray {
        tokens: document.len(),
        value_length: document.value_length(),
        null_tokens: document.null_count(),
        values: floats.map(|floats| floats.values().iter().map(|value| value.to_bits()).collect()),
        null_values: floats.map_or(0, |floats| floats.null_count()),
    }
}

fn float_list(values: Vec<f32>, dimension: i32) -> FixedSizeListArray {
    FixedSizeListArray::try_new(
        Arc::new(Field::new("item", DataType::Float32, true)),
        dimension,
        Arc::new(Float32Array::from(values)),
        None,
    )
    .unwrap()
}

fn exact_maxsim(query: &Matrix, document: &FixedSizeListArray) -> Result<f32, DatabaseError> {
    let document = token_array(document);
    let tokens = ExactMaxsimScorer::try_new(query, true)?.score(&document)?;
    if tokens == 0 {
        return Ok(f32::NAN);
    }
    let values = document.values.unwrap();
    let dimension = query.columns();
    let mut similarities = Vec::new();
    for token in 0..query.rows() {
        for other in 0..tokens {
            let mut similarity = 0.0_f32;
            for column in 0..dimension {
                similarity += f32::from_bits(query.value(token, column))
                    * f32::from_bits(values[other * dimension + column]);
            }
            similarities.push(similarity);
        }
    }
    let maxima = exact_maxima(&matrix(query.rows(), tokens, &similarities));
    let mut score = 0.0_f32;
    for maximum in maxima {
        score += f32::from_bits(maximum);
    }
    Ok(score)
}

#[test]
fn exact_scores_equal_multivec_dot_distance() {
    let documents = [
        float_list(vec![0.5, 0.0, 0.0, 0.0], 4),
        float_list(vec![0.6, 0.8, 0.0, 0.0], 4),
    ];
    let query = matrix(1, 4, &[1.0, 0.0, 0.0, 0.0]);
    let arrays = documents
        .iter()
        .map(|document| Some(token_array(document)))
        .collect::<Vec<_>>();
    assert_eq!(exact_scores(&query, true, &arrays).unwrap(), vec![1, 1]);
    let actual = documents
        .iter()
        .map(|document| 1.0 - exact_maxsim(&query, document).unwrap())
        .collect::<Vec<_>>();
    for (actual, expected) in actual.iter().zip([0.5_f32, 0.4]) {
        assert!((*actual - expected).abs() < 1.0e-6);
    }
}

#[test]
fn exact_maxsim_uses_raw_pooled_token_dot_product_and_ranking() {
    let low_norm_exact_direction = float_list(vec![0.5, 0.0, 0.0, 0.0], 4);
    let higher_raw_dot = float_list(vec![0.6, 0.8, 0.0, 0.0], 4);
    let query = matrix(1, 4, &[1.0, 0.0, 0.0, 0.0]);
    let low_norm_score = exact_maxsim(&query, &low_norm_exact_direction).unwrap();
    let higher_raw_score = exact_maxsim(&query, &higher_raw_dot).unwrap();
    assert!((low_norm_score - 0.5).abs() < 1.0e-6);
    assert!((higher_raw_score - 0.6).abs() < 1.0e-6);
    assert!(
        higher_raw_score > low_norm_score,
        "raw dot ranks the 0.6 token first; cosine would rank the 0.5 collinear token first"
    );
}

#[test]
fn exact_maxsim_uses_only_the_sliced_document_values() {
    let all_tokens = float_list(
        vec![
            100.0, 100.0, 100.0, 100.0, // excluded prefix
            0.5, 0.0, 0.0, 0.0, // first included token
            0.0, 0.25, 0.0, 0.0, // second included token
            200.0, 200.0, 200.0, 200.0, // excluded suffix
        ],
        4,
    );
    let document = all_tokens.slice(1, 2);
    let query = matrix(2, 4, &[1.0, 0.0, 0.0, 0.0, 0.0, 1.0, 0.0, 0.0]);
    let actual = exact_maxsim(&query, &document).unwrap();
    assert_eq!(actual.to_bits(), 0.75_f32.to_bits());
}

#[test]
fn exact_maxsim_preserves_empty_and_rejects_invalid_shapes() {
    let query = matrix(1, 2, &[1.0, 2.0]);
    let empty = float_list(Vec::new(), 2);
    assert!(exact_maxsim(&query, &empty).unwrap().is_nan());

    let wrong_dimension = float_list(vec![1.0, 2.0, 3.0], 3);
    let error = exact_maxsim(&query, &wrong_dimension).unwrap_err();
    assert!(error.to_string().contains("dimension 3"));

    let zero_dimension_query = matrix(1, 0, &[]);
    let error = ExactMaxsimScorer::try_new(&zero_dimension_query, true).unwrap_err();
    assert!(error.to_string().contains("dimension must be positive"));

    let query_storage = matrix(2, 2, &[1.0, 2.0, 3.0, 4.0]);
    let error = ExactMaxsimScorer::try_new(&query_storage, false).unwrap_err();
    assert!(error.to_string().contains("row-major contiguous"));

    let wrong_type = FixedSizeListArray::try_new(
        Arc::new(Field::new("item", DataType::Int32, true)),
        2,
        Arc::new(Int32Array::from(vec![1, 2])),
        None,
    )
    .unwrap();
    let error = exact_maxsim(&query, &wrong_type).unwrap_err();
    assert!(error.to_string().contains("requires Float32"));
}

#[test]
fn exact_maxsim_rejects_null_and_non_finite_values() {
    let query = matrix(1, 2, &[1.0, 2.0]);
    let float_field = Arc::new(Field::new("item", DataType::Float32, true));
    let null_token = FixedSizeListArray::try_new(
        float_field.clone(),
        2,
        Arc::new(Float32Array::from(vec![1.0, 2.0])),
        Some(NullBuffer::from(vec![false])),
    )
    .unwrap();
    let error = exact_maxsim(&query, &null_token).unwrap_err();
    assert!(error.to_string().contains("null token vectors"));

    let null_value = FixedSizeListArray::try_new(
        float_field,
        2,
        Arc::new(Float32Array::from(vec![Some(1.0), None])),
        None,
    )
    .unwrap();
    let error = exact_maxsim(&query, &null_value).unwrap_err();
    assert!(error.to_string().contains("null token values"));

    for invalid in [f32::NAN, f32::INFINITY, f32::NEG_INFINITY] {
        let invalid_document = float_list(vec![1.0, invalid], 2);
        let error = exact_maxsim(&query, &invalid_document).unwrap_err();
        assert!(error.to_string().contains("non-finite"));

        let invalid_query = matrix(1, 2, &[1.0, invalid]);
        let finite_document = float_list(vec![1.0, 2.0], 2);
        let error = exact_maxsim(&invalid_query, &finite_document).unwrap_err();
        assert!(error.to_string().contains("non-finite"));
    }
}

#[test]
fn exact_documents_have_a_whole_shape() {
    let query = matrix(1, 2, &[1.0, 2.0]);
    let scorer = ExactMaxsimScorer::try_new(&query, true).unwrap();
    let document = |tokens: usize, value_length: i32, values: &[f32]| TokenArray {
        tokens,
        value_length,
        null_tokens: 0,
        values: Some(bits(values)),
        null_values: 0,
    };
    assert_eq!(scorer.score(&document(1, 2, &[1.0, 2.0])).unwrap(), 1);
    let error = scorer.score(&document(1, -1, &[])).unwrap_err();
    assert!(error.to_string().contains("does not fit usize"));
    let error = scorer.score(&document(2, 2, &[1.0, 2.0])).unwrap_err();
    assert!(error.to_string().contains("do not match its token shape"));
    let error = scorer.score(&document(usize::MAX, 2, &[])).unwrap_err();
    assert!(error.to_string().contains("shape overflow"));
}

#[test]
fn exact_scores_rejects_a_null_document() {
    let query = matrix(1, 2, &[1.0, 2.0]);
    let document = token_array(&float_list(vec![1.0, 2.0], 2));
    let error = match exact_scores(&query, true, &vec![Some(document), None]) {
        Ok(_) => panic!("null document unexpectedly produced exact scores"),
        Err(error) => error,
    };
    assert!(error.to_string().contains("null document"));
}

#[test]
fn exact_equal_scores_keep_row_id_tie_order() {
    let document = float_list(vec![0.5_f32, 0.25, -0.5, 0.125], 4);
    let query_matrix = matrix(1, 4, &[1.0, 0.0, 0.0, 0.0]);
    let first = exact_maxsim(&query_matrix, &document).unwrap();
    let second = exact_maxsim(&query_matrix, &document).unwrap();
    assert_eq!(first.to_bits(), second.to_bits());

    let hits = vec![
        ExactHit {
            row_address: 9,
            distance: (1.0 - first).to_bits(),
        },
        ExactHit {
            row_address: 3,
            distance: (1.0 - second).to_bits(),
        },
        ExactHit {
            row_address: 7,
            distance: (1.0 - first).to_bits(),
        },
    ];
    let hits = rank_hits(&hits, &query_for(2));
    assert_eq!(
        hits.iter().map(|hit| hit.row_address).collect::<Vec<_>>(),
        vec![3, 7]
    );
}

#[test]
fn distances_are_bounded_below_inclusively_and_above_exclusively() {
    let at = |row_address: u64, distance: f32| ExactHit {
        row_address,
        distance: distance.to_bits(),
    };
    let hits = vec![at(1, 0.5), at(2, 0.25), at(3, 0.75), at(4, f32::NAN), at(5, -0.0)];
    let mut query = query_for(10);
    query.lower_bound = Some(0.25_f32.to_bits());
    query.upper_bound = Some(0.75_f32.to_bits());
    let ranked = rank_hits(&hits, &query);
    assert_eq!(
        ranked.iter().map(|hit| hit.row_address).collect::<Vec<_>>(),
        vec![2, 1]
    );
    let all = rank_hits(&hits, &query_for(10));
    assert_eq!(
        all.iter().map(|hit| hit.row_address).collect::<Vec<_>>(),
        vec![5, 2, 1, 3, 4]
    );
    let mut reversed = hits.clone();
    reversed.reverse();
    assert_eq!(rank_hits(&reversed, &query), ranked);
}

#[test]
fn results_are_ranked_again_by_identifier() {
    let hits = vec![
        ExactHit {
            row_address: 100,
            distance: 0.5_f32.to_bits(),
        },
        ExactHit {
            row_address: 200,
            distance: 0.5_f32.to_bits(),
        },
    ];
    let ranked = finish_index_only(&hits, &[9, 4]).unwrap();
    assert_eq!(
        ranked.iter().map(|hit| hit.row_address).collect::<Vec<_>>(),
        vec![4, 9]
    );
    let error = finish_index_only(&hits, &[9]).unwrap_err();
    assert_eq!(
        error.to_string(),
        "PLAID row-id-only take returned 1 rows for 2 candidates"
    );
    let error = check_raw_vectors(3, 2).unwrap_err();
    assert_eq!(
        error.to_string(),
        "PLAID raw-vector take returned 3 rows for 2 candidates"
    );
    let refined = finish_refined(&hits, &[9, 4], &query_for(1));
    assert_eq!(refined.len(), 1);
    assert_eq!(refined[0].row_address, 4);

    let mut metrics = PlaidExecMetrics::new();
    assert_eq!(
        index_only_result_row_ids(false, &vec![7, 8], &vec![], &mut metrics).unwrap(),
        vec![7, 8]
    );
    assert_eq!(metrics.row_id_rows_count, 0);
    assert_eq!(
        index_only_result_row_ids(true, &vec![7, 8], &vec![1, 2], &mut metrics).unwrap(),
        vec![1, 2]
    );
    assert!(index_only_result_row_ids(true, &vec![7, 8], &vec![1], &mut metrics).is_err());
    assert_eq!(metrics.row_id_rows_count, 3);
}

#[test]
fn bounded_direct_ordinal_collection_stops_at_cap_plus_one() {
    let addresses = (0_u64..10_000).collect::<Vec<_>>();
    let visited = Cell::new(0_usize);
    let outcome = collect_bounded_document_ordinals(&addresses, 3, |address| {
        visited.set(visited.get() + 1);
        Some(address as u32)
    });
    assert!(matches!(outcome, BoundedEligibleOrdinals::OverLimit));
    assert_eq!(visited.get(), 4);

    let visited = Cell::new(0_usize);
    let outcome = collect_bounded_document_ordinals(&addresses, 0, |address| {
        visited.set(visited.get() + 1);
        Some(address as u32)
    });
    assert!(matches!(outcome, BoundedEligibleOrdinals::OverLimit));
    assert_eq!(visited.get(), 1);

    let outcome = collect_bounded_document_ordinals(&[10_u64, 20, 30], 3, |address| {
        Some((address / 10) as u32)
    });
    let BoundedEligibleOrdinals::WithinLimit(ordinals) = outcome else {
        panic!("three rows at the cap should remain eligible");
    };
    assert_eq!(ordinals, vec![1, 2, 3]);

    let outcome = collect_bounded_document_ordinals(&[], 3, |_| Some(0));
    let BoundedEligibleOrdinals::WithinLimit(ordinals) = outcome else {
        panic!("an empty segment-local result must remain independently empty");
    };
    assert!(ordinals.is_empty());
}

#[test]
fn index_parameters_are_checked() {
    let params = PlaidIndexParams::default();
    assert_eq!(params.num_centroids, 0);
    assert_eq!(params.nbits, 2);
    assert_eq!(params.max_iterations, 20);
    assert_eq!(params.sample_rate, 256);
    assert_eq!(params.index_name(), "PLAID");
    assert!(params.validate().is_ok());
    let idle = PlaidIndexParams {
        max_iterations: 0,
        ..params
    };
    assert_eq!(
        idle.validate().unwrap_err().to_string(),
        "PLAID max_iterations and sample_rate must be positive, got 0 and 256"
    );
    let odd = PlaidIndexParams { nbits: 3, ..params };
    assert_eq!(
        odd.validate().unwrap_err().to_string(),
        "PLAID nbits must be 2 or 4, got 3"
    );
    let pairs = |params: &PlaidIndexParams| {
        plaid_index_details(params)
            .into_iter()
            .map(|hint| (hint.name, hint.value))
            .collect::<Vec<_>>()
    };
    assert_eq!(
        pairs(&params),
        vec![
            ("lance.plaid", "true".to_string()),
            ("lance.plaid.format_version", "1".to_string()),
            ("lance.plaid.nbits", "2".to_string()),
            ("lance.plaid.num_centroids", "auto".to_string()),
            ("lance.plaid.training_seed", "42".to_string()),
        ]
    );
    let counted = PlaidIndexParams {
        num_centroids: 512,
        ..params
    };
    assert_eq!(pairs(&counted)[3].1, "512");
    assert!(is_plaid_index_metadata(Some("TrUe")));
    assert!(!is_plaid_index_metadata(Some("yes")));
    assert!(!is_plaid_index_metadata(None));
}

#[test]
fn queries_are_whole_tokens_of_finite_numbers() {
    let values = bits(&[1.0, 0.0, 0.0, 1.0]);
    let query = query_to_array(Some(&values), 0, 2).unwrap();
    assert_eq!((query.rows(), query.columns()), (2, 2));
    let error = query_to_array(None, 0, 2).unwrap_err();
    assert_eq!(error.to_string(), "PLAID query must contain Float32 values");
    for (length, nulls, dimension) in [(4, 0, 3), (0, 0, 2), (4, 1, 2)] {
        let error = query_to_array(Some(&values[..length]), nulls, dimension).unwrap_err();
        assert_eq!(
            error.to_string(),
            format!(
                "PLAID query length {length} must be a positive multiple of dimension {dimension} without nulls"
            )
        );
    }
    let infinite = bits(&[1.0, f32::INFINITY]);
    let error = query_to_array(Some(&infinite), 0, 2).unwrap_err();
    assert_eq!(
        error.to_string(),
        "PLAID token vectors must be non-empty and finite"
    );
}

/// A segment of 64 documents with one token each, at the addresses from `first`
/// on. Documents alternate between two centroids.
fn vector_index(first: u64, ids: &mut InstanceIds) -> PlaidVectorIndex {
    let quantizer =
        ResidualQuantizer::try_new(2, bits(&[-0.1, 0.0, 0.1]), bits(&[0.0; 4])).unwrap();
    let packed = quantizer
        .quantize(&matrix(64, 4, &vec![0.0; 256]))
        .unwrap();
    PlaidVectorIndex::try_new(
        PlaidIndex::try_new(
            matrix(2, 4, &[1.0, 0.0, 0.0, 0.0, 0.0, 1.0, 0.0, 0.0]),
            quantizer,
            (0..64).map(|ordinal| first + ordinal).collect(),
            (0..=64).collect(),
            (0..64).map(|ordinal| ordinal % 2).collect(),
            packed,
            ids,
        )
        .unwrap(),
    )
}

#[test]
fn vector_indexes_answer_about_themselves() {
    let mut ids = InstanceIds::new();
    let index = vector_index(new_from_parts(3, 10), &mut ids);
    let statistics = index.statistics();
    assert_eq!(statistics.documents, 64);
    assert_eq!(statistics.tokens, 64);
    assert_eq!(statistics.centroids, 2);
    assert_eq!(statistics.dimension, 4);
    assert_eq!(statistics.nbits, 2);
    assert_eq!(
        index.calculate_included_frags().iter().collect::<Vec<_>>(),
        vec![3]
    );
    assert_eq!(index.find_partitions(), (vec![0], vec![0.0_f32.to_bits()]));
    assert_eq!(index.total_partitions(), 1);
    assert_eq!(index.num_rows(), 64);
    assert_eq!(index.row_ids(), index.segment().row_addresses());
    assert_eq!(index.partition_size(0), 64);
    assert_eq!(index.partition_size(1), 0);
    assert!(PlaidVectorIndex::check_partition(0).is_ok());
    assert_eq!(
        PlaidVectorIndex::check_partition(2)
            .unwrap_err()
            .to_string(),
        "PLAID exposes one logical partition, got 2"
    );
    assert!(index
        .load()
        .unwrap_err()
        .to_string()
        .contains("open the full versioned segment"));
    assert!(index
        .to_batch_stream()
        .unwrap_err()
        .to_string()
        .contains("does not expose IVF partition batches"));
    assert!(index
        .remap()
        .unwrap_err()
        .to_string()
        .contains("drop and rebuild the PLAID index"));
    let stats = PlaidSearchStats {
        exact_documents: 5,
        ..PlaidSearchStats::default()
    };
    assert_eq!(PlaidVectorIndex::comparisons(&stats, 3), 15);
    assert_eq!(PlaidVectorIndex::comparisons(&stats, usize::MAX), usize::MAX);
    let hits = vec![hit(0, 1, 0.5), hit(1, 2, 0.25)];
    assert_eq!(PlaidVectorIndex::best_hits(&hits, 1).len(), 1);
    assert_eq!(PlaidVectorIndex::best_hits(&hits, 5).len(), 2);
}

#[test]
fn narrow_filters_probe_wider_and_only_where_eligible_documents_are() {
    let mut ids = InstanceIds::new();
    let index = vector_index(0, &mut ids);
    let mut query = query_for(10);
    query.minimum_nprobes = 1;
    let narrow = RowAddrMask::AllowList(listed(vec![2, 1_000]));
    let plan = index.candidate_plan(&query, 10, 1, &narrow).unwrap();
    assert_eq!(plan.eligible_documents, 1);
    assert_eq!(plan.maximum_nprobes, 2);
    assert_eq!(plan.params.n_ivf_probe, 2);
    assert_eq!(plan.params.top_k, 1);
    assert_eq!(plan.eligible_centroids.eligible_centroids(), 1);
    assert_eq!(index.desired_candidates(&plan), 1);
    let all = index.candidate_plan(&query, 10, 1, &everything()).unwrap();
    assert_eq!(all.eligible_documents, 64);
    assert_eq!(all.params.top_k, 64);
    query.maximum_nprobes = Some(1);
    let ceiling = index.candidate_plan(&query, 10, 1, &narrow).unwrap();
    assert_eq!(ceiling.maximum_nprobes, 1);
    assert_eq!(ceiling.params.n_ivf_probe, 1);
    assert_eq!(
        index.eligible_row_addresses(&narrow),
        vec![2],
        "rows of other segments are not eligible here"
    );
    assert_eq!(index.eligible_row_addresses(&everything()).len(), 64);
}

#[test]
fn direct_plans_follow_the_gates() {
    let mut ids = InstanceIds::new();
    let index = vector_index(0, &mut ids);
    let query = query_for(10);
    let config = DirectResidualConfig::default();
    let narrow = RowAddrMask::AllowList(listed(vec![3, 5, 500]));
    match direct_residual_plan(config, &query, 10, true, &index, &narrow) {
        DirectResidualPlan::Direct {
            document_ordinals,
            params,
        } => {
            assert_eq!(document_ordinals, vec![3, 5]);
            assert_eq!(params.top_k, 2);
        }
        _ => panic!("two listed documents are searched directly"),
    }
    let elsewhere = RowAddrMask::AllowList(listed(vec![500]));
    assert!(matches!(
        direct_residual_plan(config, &query, 10, true, &index, &elsewhere),
        DirectResidualPlan::Empty
    ));
    assert!(matches!(
        direct_residual_plan(config, &query, 10, true, &index, &everything()),
        DirectResidualPlan::Legacy(DirectResidualDecision::NonEnumerable)
    ));
    let tight = DirectResidualConfig {
        enabled: true,
        max_documents: 1,
    };
    assert!(matches!(
        direct_residual_plan(tight, &query, 10, true, &index, &narrow),
        DirectResidualPlan::Legacy(DirectResidualDecision::OverLimit)
    ));
}

fn exec_for(query: Query, segments: usize) -> PlaidSearchExec {
    let indices = (0..segments)
        .map(|_| SegmentMetadata {
            name: "plaid_idx".to_string(),
            runtime_hint: Some("true".to_string()),
        })
        .collect::<Vec<_>>();
    PlaidSearchExec::try_new(&indices, query, DirectResidualConfig::default()).unwrap()
}

#[test]
fn operators_check_their_segments_and_describe_themselves() {
    let mut query = query_for(10);
    query.refine_factor = Some(5);
    let exec = exec_for(query, 2);
    assert_eq!(
        exec.display(),
        "PlaidSearch: name=plaid_idx, k=10, segments=2, mode=exact, core_residual_budget=1024, raw_refinement_budget=50, filter_exact_fallback=enabled, direct_residual_mode=enabled, direct_residual_max_documents=1024"
    );
    assert_eq!(
        exec_for(query_for(10), 1).display_tree(),
        "PlaidSearch\nname=plaid_idx\nk=10\nsegments=1\nmode=index_only\ncore_residual_budget=1024\nraw_refinement_budget=0\nfilter_exact_fallback=enabled\ndirect_residual_mode=enabled\ndirect_residual_max_documents=1024"
    );
    let refused = |indices: Vec<SegmentMetadata>, query: Query| {
        PlaidSearchExec::try_new(&indices, query, DirectResidualConfig::default())
            .unwrap_err()
            .to_string()
    };
    let marked = |hint: Option<&str>| SegmentMetadata {
        name: "plaid_idx".to_string(),
        runtime_hint: hint.map(|hint| hint.to_string()),
    };
    assert!(refused(vec![], query).contains("requires at least one index segment"));
    assert!(refused(vec![marked(Some("true")), marked(None)], query)
        .contains("received a non-PLAID index segment"));
    query.refine_factor = Some(0);
    assert!(refused(vec![marked(Some("true"))], query).contains("must be positive"));
    query.refine_factor = Some(2);
    query.k = usize::MAX;
    assert!(refused(vec![marked(Some("true"))], query).contains("budget overflow"));
    assert!(PlaidSearchExec::check_children(PreFilterSource::Unfiltered, 0).is_ok());
    assert!(PlaidSearchExec::check_children(PreFilterSource::FilteredRowIds, 1).is_ok());
    assert!(PlaidSearchExec::check_children(PreFilterSource::ScalarIndexQuery, 0).is_err());
}

fn physical(mask: RowAddrMask) -> FilterMask<'static> {
    FilterMask {
        uses_stable_row_ids: false,
        row_id_index: None,
        has_deletions: false,
        mask,
    }
}

fn begin(
    exec: &PlaidSearchExec,
    mask: RowAddrMask,
    metrics: &mut PlaidExecMetrics,
) -> Option<QueryExecution> {
    let values = bits(&[1.0, 0.0, 0.0, 0.0]);
    QueryExecution::begin(exec, Some(&values), 0, 4, physical(mask), metrics).unwrap()
}

/// Scores every document by its centroid: one half for the first, one quarter
/// for the second.
fn search_segment(
    execution: &mut QueryExecution,
    index: &PlaidVectorIndex,
    metrics: &mut PlaidExecMetrics,
) {
    QueryExecution::count_segment(metrics);
    let search = execution.open_segment(index).unwrap();
    let mut stats = PlaidSearchStats::default();
    let scores = matrix(1, 2, &[0.5, 0.25]);
    let scored = |documents: Vec<u32>| {
        documents
            .into_iter()
            .map(|document_ordinal| ScoredDocument {
                document_ordinal,
                score: if document_ordinal % 2 == 0 {
                    0.5_f32.to_bits()
                } else {
                    0.25_f32.to_bits()
                },
            })
            .collect::<Vec<_>>()
    };
    let mut hits = Vec::new();
    if !matches!(search, SegmentSearch::Empty) {
        let mut action = execution
            .continue_segment(index, &search, SearchEvent::Started, &mut stats)
            .unwrap();
        loop {
            action = match action.unwrap() {
                SearchAction::ScoreCentroids => execution
                    .continue_segment(
                        index,
                        &search,
                        SearchEvent::CentroidsScored(&scores),
                        &mut stats,
                    )
                    .unwrap(),
                SearchAction::ScoreCandidates(documents) => execution
                    .continue_segment(
                        index,
                        &search,
                        SearchEvent::CandidatesScored(&scored(documents)),
                        &mut stats,
                    )
                    .unwrap(),
                SearchAction::ScoreDocuments(documents) => execution
                    .continue_segment(
                        index,
                        &search,
                        SearchEvent::DocumentsScored(&scored(documents)),
                        &mut stats,
                    )
                    .unwrap(),
                SearchAction::Finished(found) => {
                    hits = found;
                    break;
                }
            };
        }
    }
    execution.record_segment(search.finished(hits, stats, 7), metrics);
}

#[test]
fn empty_filters_search_no_segment() {
    let exec = exec_for(query_for(10), 2);
    let mut metrics = PlaidExecMetrics::new();
    let nothing = RowAddrMask::AllowList(listed(Vec::new()));
    assert!(begin(&exec, nothing, &mut metrics).is_none());
    assert_eq!(metrics.empty_filter_query_count, 1);
    assert_eq!(metrics.eligible_centroid_empty_count, 2);
    assert_eq!(metrics.direct_residual_empty_segment_count, 2);
    assert_eq!(metrics.segments_searched_count, 0);
    assert_eq!(metrics.index_only_query_count, 1);
}

#[test]
fn small_filters_are_scored_exactly() {
    let mut ids = InstanceIds::new();
    let index = vector_index(0, &mut ids);
    let exec = exec_for(query_for(10), 1);
    let mut metrics = PlaidExecMetrics::new();
    let few = RowAddrMask::AllowList(listed(vec![4, 9, 70]));
    let mut execution = begin(&exec, few, &mut metrics).unwrap();
    assert!(execution.small_filter_exact);
    assert!(!execution.searches_segments());
    assert!(execution.settle(&vec![&index], &mut metrics));
    assert_eq!(execution.candidates.len(), 2);
    assert_eq!(metrics.direct_residual_small_exact_precedence_count, 1);
    assert_eq!(metrics.filter_exact_small_count, 1);
    assert_eq!(metrics.filter_exact_underfilled_count, 0);
    assert_eq!(metrics.filter_exact_documents_count, 2);
    match execution.next(true) {
        QueryFinish::Refine(addresses) => assert_eq!(addresses, vec![4, 9]),
        _ => panic!("a fallback fetches vectors"),
    }
}

#[test]
fn filtered_queries_merge_direct_and_empty_segments() {
    let mut ids = InstanceIds::new();
    let first = vector_index(0, &mut ids);
    let second = vector_index(1_000, &mut ids);
    let exec = exec_for(query_for(2), 2);
    let mut metrics = PlaidExecMetrics::new();
    let some = RowAddrMask::AllowList(listed(vec![3, 4, 8]));
    let mut execution = begin(&exec, some, &mut metrics).unwrap();
    assert!(!execution.small_filter_exact);
    assert!(execution.searches_segments());
    search_segment(&mut execution, &first, &mut metrics);
    search_segment(&mut execution, &second, &mut metrics);
    assert!(!execution.settle(&vec![&first, &second], &mut metrics));
    assert_eq!(metrics.segments_searched_count, 2);
    assert_eq!(metrics.direct_residual_segment_count, 1);
    assert_eq!(metrics.direct_residual_empty_segment_count, 1);
    assert_eq!(metrics.direct_residual_document_count, 3);
    assert_eq!(metrics.direct_residual_query_count, 1);
    assert_eq!(metrics.legacy_residual_query_count, 0);
    assert_eq!(metrics.direct_residual, 7);
    assert_eq!(metrics.residual_documents_count, 3);
    match execution.next(false) {
        QueryFinish::IndexOnly(rows) => {
            let hits = rows
                .iter()
                .map(|row: &ScoredRow| ExactHit {
                    row_address: row.row_address,
                    distance: (1.0 - f32::from_bits(row.score)).to_bits(),
                })
                .collect::<Vec<_>>();
            let ranked = rank_hits(&hits, &execution.query);
            assert_eq!(
                ranked.iter().map(|hit| hit.row_address).collect::<Vec<_>>(),
                vec![4, 8]
            );
        }
        _ => panic!("an index-only query returns its candidates"),
    }
}

#[test]
fn unfiltered_queries_probe_every_segment() {
    let mut ids = InstanceIds::new();
    let index = vector_index(0, &mut ids);
    let mut query = query_for(3);
    query.refine_factor = Some(2);
    let exec = exec_for(query, 1);
    let mut metrics = PlaidExecMetrics::new();
    let mut execution = begin(&exec, everything(), &mut metrics).unwrap();
    assert!(!execution.filtered);
    search_segment(&mut execution, &index, &mut metrics);
    assert!(!execution.settle(&vec![&index], &mut metrics));
    assert_eq!(metrics.legacy_residual_segment_count, 1);
    assert_eq!(metrics.direct_residual_unfiltered_count, 1);
    assert_eq!(metrics.eligible_centroid_unfiltered_count, 1);
    assert_eq!(metrics.centroids_probed_count, 2);
    match execution.next(false) {
        QueryFinish::Refine(addresses) => assert_eq!(addresses, vec![0, 2, 4, 6, 8, 10]),
        _ => panic!("a refined query fetches vectors"),
    }
}

#[test]
fn underfilled_filters_are_scored_exactly() {
    let mut ids = InstanceIds::new();
    let index = vector_index(0, &mut ids);
    let exec = exec_for(query_for(2), 1);
    let mut metrics = PlaidExecMetrics::new();
    let some = RowAddrMask::AllowList(listed(vec![3, 4, 8]));
    let mut execution = begin(&exec, some, &mut metrics).unwrap();
    execution.record_segment(SegmentSearchOutcome::Empty, &mut metrics);
    assert!(execution.settle(&vec![&index], &mut metrics));
    assert_eq!(metrics.filter_exact_underfilled_count, 1);
    assert_eq!(metrics.filter_exact_documents_count, 3);
    assert!(matches!(execution.next(true), QueryFinish::Refine(_)));
}

/// Answers a query over two segments, and returns the rows that it names.
fn answer_filtered(k: usize, mask: RowAddrMask, refine_factor: Option<u32>) -> Vec<u64> {
    let mut ids = InstanceIds::new();
    let first = vector_index(0, &mut ids);
    let second = vector_index(1_000, &mut ids);
    let indices = vec![&first, &second];
    let mut query = query_for(k);
    query.refine_factor = refine_factor;
    let exec = exec_for(query, 2);
    let mut metrics = PlaidExecMetrics::new();
    let mut execution = begin(&exec, mask, &mut metrics).unwrap();
    if execution.searches_segments() {
        for index in &indices {
            search_segment(&mut execution, index, &mut metrics);
        }
    }
    let fell_back = execution.settle(&indices, &mut metrics);
    let measure = |addresses: Vec<u64>| {
        addresses
            .into_iter()
            .map(|row_address| ExactHit {
                row_address,
                distance: (row_address as f32).to_bits(),
            })
            .collect::<Vec<_>>()
    };
    let ranked = match execution.next(fell_back) {
        QueryFinish::Empty => Vec::new(),
        QueryFinish::IndexOnly(rows) => {
            let hits = measure(rows.iter().map(|row| row.row_address).collect());
            let ranked = rank_hits(&hits, &execution.query);
            let addresses = ranked.iter().map(|hit| hit.row_address).collect::<Vec<_>>();
            finish_index_only(&ranked, &addresses).unwrap()
        }
        QueryFinish::Refine(addresses) => {
            finish_refined(&measure(addresses.clone()), &addresses, &execution.query)
        }
    };
    ranked.iter().map(|hit| hit.row_address).collect()
}

#[test]
fn filtered_queries_return_as_many_eligible_rows_as_they_can() {
    // Segments hold the addresses 0 to 63 and 1000 to 1063.
    let eligible = [3, 4, 8, 1_001, 1_002];
    let listing = || RowAddrMask::AllowList(listed(vec![3, 4, 8, 77, 1_001, 1_002, 2_000]));
    for refine_factor in [None, Some(1), Some(3)] {
        for k in [1, 2, 4, 5, 6, 7, 40] {
            let rows = answer_filtered(k, listing(), refine_factor);
            assert_eq!(rows.len(), k.min(eligible.len()), "{k} rows");
            assert!(rows.iter().all(|row| eligible.contains(row)));
            assert!(rows.windows(2).all(|pair| pair[0] < pair[1]));
        }
        // All but ten rows of each segment are blocked.
        let blocked = (0..54).chain(1_000..1_054).collect::<Vec<u64>>();
        for k in [1, 19, 20, 21, 500] {
            let mask = RowAddrMask::BlockList(listed(blocked.clone()));
            let rows = answer_filtered(k, mask, refine_factor);
            assert_eq!(rows.len(), k.min(20), "{k} rows");
            assert!(rows.iter().all(|row| !blocked.contains(row)));
        }
    }
}

#[test]
fn direct_searches_of_empty_documents_fall_back_to_probing() {
    let mut ids = InstanceIds::new();
    let quantizer =
        ResidualQuantizer::try_new(2, bits(&[-0.1, 0.0, 0.1]), bits(&[0.0; 4])).unwrap();
    let packed = quantizer.quantize(&matrix(2, 4, &[0.0; 8])).unwrap();
    let index = PlaidVectorIndex::try_new(
        PlaidIndex::try_new(
            matrix(2, 4, &[1.0, 0.0, 0.0, 0.0, 0.0, 1.0, 0.0, 0.0]),
            quantizer,
            vec![0, 1, 2],
            vec![0, 1, 1, 2],
            vec![0, 1],
            packed,
            &mut ids,
        )
        .unwrap(),
    );
    let exec = exec_for(query_for(1), 1);
    let mut metrics = PlaidExecMetrics::new();
    let some = RowAddrMask::AllowList(listed(vec![0, 1, 2]));
    let mut execution = begin(&exec, some, &mut metrics).unwrap();
    search_segment(&mut execution, &index, &mut metrics);
    assert!(!execution.settle(&vec![&index], &mut metrics));
    assert_eq!(metrics.direct_residual_empty_tokens_count, 1);
    assert_eq!(metrics.legacy_residual_segment_count, 1);
    assert_eq!(metrics.legacy_residual_query_count, 1);
    assert_eq!(metrics.direct_residual_query_count, 0);
    assert_eq!(metrics.direct_residual, 7);
}

#[test]
fn only_marked_segments_are_opened() {
    let quantizer = ResidualQuantizer::try_new(
        2,
        bits(&[-0.5, 0.0, 0.5]),
        bits(&[-0.75, -0.25, 0.25, 0.75]),
    )
    .unwrap();
    let packed = quantizer
        .quantize(&matrix(1, 4, &[0.1, -0.2, 0.3, -0.4]))
        .unwrap();
    let mut ids = InstanceIds::new();
    let stored = PlaidIndex::try_new(
        matrix(1, 4, &[1.0, 0.0, 0.0, 0.0]),
        quantizer,
        vec![7],
        vec![0, 1],
        vec![0],
        packed,
        &mut ids,
    )
    .unwrap();
    let bytes = stored.to_bytes().unwrap();

    let opened = open_plaid_index("a-b", Some("TRUE"), &bytes, &mut ids).unwrap();
    assert_eq!(opened.row_ids(), &[7]);
    assert_eq!(opened.segment().to_bytes().unwrap(), bytes);
    assert_ne!(opened.segment().instance_id(), stored.instance_id());

    for hint in [None, Some("false"), Some("")] {
        let error = open_plaid_index("a-b", hint, &bytes, &mut ids).unwrap_err();
        assert!(matches!(error, DatabaseError::Index(_)));
        assert_eq!(
            error.to_string(),
            "index a-b is not marked as PLAID in persisted VectorIndexDetails"
        );
    }
    let error = open_plaid_index("a-b", Some("true"), &bytes[..40], &mut ids).unwrap_err();
    assert_eq!(
        error.to_string(),
        "PLAID index error: corrupt PLAID file: file is shorter than the 48-byte header: 40 bytes"
    );
}
