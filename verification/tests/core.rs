use lance_plaid::adaptive::{EligibleCentroidDecision, EligibleCentroidPlan};
use lance_plaid::index::{InstanceIds, PlaidIndex};
use lance_plaid::matrix::Matrix;
use lance_plaid::pipeline::{SearchAction, SearchEvent};
use lance_plaid::search::{duration_nanos, ScoredDocument};
use lance_plaid::{
    maxsim_naive, AddressEligibility, AllEligible, Eligibility, Error, PlaidSearchParams,
    PlaidSearchStats, ResidualQuantizer, SearchHit,
};
use std::time::Instant;

fn bits(values: &[f32]) -> Vec<u32> {
    values.iter().map(|value| value.to_bits()).collect()
}

fn floats(values: &[u32]) -> Vec<f32> {
    values.iter().map(|value| f32::from_bits(*value)).collect()
}

fn matrix(rows: usize, columns: usize, values: &[f32]) -> Matrix {
    Matrix::from_shape_vec(rows, columns, bits(values)).unwrap()
}

fn row(matrix: &Matrix, row: usize) -> Vec<f32> {
    (0..matrix.columns())
        .map(|column| f32::from_bits(matrix.value(row, column)))
        .collect()
}

fn dot(left: &[f32], right: &[f32]) -> f32 {
    left.iter().zip(right).map(|(left, right)| left * right).sum()
}

/// The similarity of every row of one matrix to every row of another.
fn products(left: &Matrix, right: &Matrix) -> Matrix {
    let mut values = Vec::new();
    for i in 0..left.rows() {
        for j in 0..right.rows() {
            values.push(dot(&row(left, i), &row(right, j)));
        }
    }
    matrix(left.rows(), right.rows(), &values)
}

fn sum(terms: &[u32]) -> f32 {
    let mut score = 0.0_f32;
    for term in terms {
        score += f32::from_bits(*term);
    }
    score
}

fn maxsim(query: &Matrix, document: &Matrix) -> f32 {
    match maxsim_naive(&products(query, document)) {
        Some(terms) => sum(&terms),
        None => f32::NEG_INFINITY,
    }
}

/// Adds residuals to centroids and normalizes each token.
fn reconstruct(index: &PlaidIndex, document: u32) -> Matrix {
    let terms = index.reconstruct_document(document).unwrap();
    add_up(&terms.centroids, &terms.residuals)
}

fn add_up(centroids: &Matrix, residuals: &Matrix) -> Matrix {
    let mut values = Vec::new();
    for token in 0..centroids.rows() {
        let mut sums = Vec::new();
        let mut squared_norm = 0.0_f32;
        for (centroid, residual) in row(centroids, token).iter().zip(row(residuals, token)) {
            let value = centroid + residual;
            sums.push(value);
            squared_norm += value * value;
        }
        let norm = squared_norm.sqrt().max(1.0e-12);
        for value in sums {
            values.push(value / norm);
        }
    }
    matrix(centroids.rows(), centroids.columns(), &values)
}

fn quantized_maxsim(index: &PlaidIndex, query: &Matrix, document: u32) -> Result<f32, Error> {
    let terms = index.quantized_maxsim(query, document)?;
    Ok(maxsim(query, &add_up(&terms.centroids, &terms.residuals)))
}

fn score_candidates(index: &PlaidIndex, scores: &Matrix, documents: &[u32]) -> Vec<ScoredDocument> {
    documents
        .iter()
        .map(|document| ScoredDocument {
            document_ordinal: *document,
            score: sum(&index.approximate_terms(scores, *document).unwrap()).to_bits(),
        })
        .collect()
}

fn score_documents(index: &PlaidIndex, query: &Matrix, documents: &[u32]) -> Vec<ScoredDocument> {
    documents
        .iter()
        .map(|document| ScoredDocument {
            document_ordinal: *document,
            score: quantized_maxsim(index, query, *document).unwrap().to_bits(),
        })
        .collect()
}

/// Answers what a search asks for until it is finished.
fn drive(
    index: &PlaidIndex,
    query: &Matrix,
    plan: Option<&EligibleCentroidPlan>,
    mut step: impl FnMut(SearchEvent, &mut PlaidSearchStats) -> Result<SearchAction, Error>,
) -> Result<(Vec<SearchHit>, PlaidSearchStats), Error> {
    let started = Instant::now();
    let mut stats = PlaidSearchStats::default();
    let scores = products(query, index.centroids());
    let mut action = step(SearchEvent::Started, &mut stats)?;
    loop {
        action = match action {
            SearchAction::ScoreCentroids => {
                let selection_started = Instant::now();
                let next = step(SearchEvent::CentroidsScored(&scores), &mut stats)?;
                let nanos = duration_nanos(selection_started.elapsed().as_nanos());
                stats.centroid_probe_nanos = nanos;
                stats.record_selection(plan, nanos);
                next
            }
            SearchAction::ScoreCandidates(documents) => {
                let scored = score_candidates(index, &scores, &documents);
                step(SearchEvent::CandidatesScored(&scored), &mut stats)?
            }
            SearchAction::ScoreDocuments(documents) => {
                let scored = score_documents(index, query, &documents);
                step(SearchEvent::DocumentsScored(&scored), &mut stats)?
            }
            SearchAction::Finished(hits) => {
                stats.total_nanos = duration_nanos(started.elapsed().as_nanos());
                return Ok((hits, stats));
            }
        };
    }
}

fn search<E: Eligibility>(
    index: &PlaidIndex,
    query: &Matrix,
    params: &PlaidSearchParams,
    eligibility: &E,
) -> Result<(Vec<SearchHit>, PlaidSearchStats), Error> {
    drive(index, query, None, |event, stats| {
        index.search(query, params, eligibility, event, stats)
    })
}

fn search_adaptive<E: Eligibility>(
    index: &PlaidIndex,
    query: &Matrix,
    params: &PlaidSearchParams,
    maximum_nprobes: usize,
    desired: usize,
    eligibility: &E,
    plan: Option<&EligibleCentroidPlan>,
) -> Result<(Vec<SearchHit>, PlaidSearchStats), Error> {
    drive(index, query, plan, |event, stats| {
        index.search_adaptive(
            query,
            params,
            maximum_nprobes,
            desired,
            eligibility,
            plan,
            event,
            stats,
        )
    })
}

fn search_quantized_residuals(
    index: &PlaidIndex,
    query: &Matrix,
    documents: &[u32],
) -> Result<Option<(Vec<SearchHit>, PlaidSearchStats)>, Error> {
    let mut stats = PlaidSearchStats::default();
    let first =
        index.search_quantized_residuals(query, documents, SearchEvent::Started, &mut stats)?;
    let documents_to_score = match first {
        Some(SearchAction::ScoreDocuments(documents)) => documents,
        Some(_) => panic!("a direct search scores documents first"),
        None => return Ok(None),
    };
    let scored = score_documents(index, query, &documents_to_score);
    let last = index.search_quantized_residuals(
        query,
        documents,
        SearchEvent::DocumentsScored(&scored),
        &mut stats,
    )?;
    match last {
        Some(SearchAction::Finished(hits)) => Ok(Some((hits, stats))),
        _ => panic!("a direct search ends with hits"),
    }
}

fn two_centroids() -> Matrix {
    matrix(2, 4, &[1.0, 0.0, 0.0, 0.0, 0.0, 1.0, 0.0, 0.0])
}

fn small_quantizer() -> ResidualQuantizer {
    ResidualQuantizer::try_new(2, bits(&[-0.1, 0.0, 0.1]), bits(&[0.0; 4])).unwrap()
}

fn quantizer(nbits: u8) -> ResidualQuantizer {
    match nbits {
        2 => small_quantizer(),
        4 => ResidualQuantizer::try_new(
            4,
            (-7..8)
                .map(|value| (value as f32 / 100.0).to_bits())
                .collect(),
            bits(&[0.0; 16]),
        )
        .unwrap(),
        _ => unreachable!(),
    }
}

fn packed_zeros(quantizer: &ResidualQuantizer, tokens: usize) -> Vec<u8> {
    quantizer
        .quantize(&matrix(tokens, 4, &vec![0.0; tokens * 4]))
        .unwrap()
}

fn test_index(nbits: u8, ids: &mut InstanceIds) -> PlaidIndex {
    let quantizer = quantizer(nbits);
    let packed_residuals = packed_zeros(&quantizer, 3);
    PlaidIndex::try_new(
        two_centroids(),
        quantizer,
        vec![7, 42, 1001],
        vec![0, 1, 2, 3],
        vec![0, 1, 0],
        packed_residuals,
        ids,
    )
    .unwrap()
}

fn exact_test_index(nbits: u8, ids: &mut InstanceIds) -> PlaidIndex {
    let quantizer = quantizer(nbits);
    let packed_residuals = packed_zeros(&quantizer, 3);
    PlaidIndex::try_new_with_exact_store(
        two_centroids(),
        quantizer,
        vec![7, 42, 1001],
        vec![0, 2, 2, 3],
        vec![0, 1, 0],
        packed_residuals,
        vec![9001, 7007, 8008],
        (1..=12).map(|value| (value as f32).to_bits()).collect(),
        ids,
    )
    .unwrap()
}

fn push_f32s(bytes: &mut Vec<u8>, values: &[f32]) {
    for value in values {
        bytes.extend_from_slice(&value.to_le_bytes());
    }
}

fn push_u32s(bytes: &mut Vec<u8>, values: &[u32]) {
    for value in values {
        bytes.extend_from_slice(&value.to_le_bytes());
    }
}

fn push_u64s(bytes: &mut Vec<u8>, values: &[u64]) {
    for value in values {
        bytes.extend_from_slice(&value.to_le_bytes());
    }
}

fn legacy_v1_fixture_bytes() -> Vec<u8> {
    let mut bytes = Vec::new();
    bytes.extend_from_slice(b"LPLDIDX\0");
    bytes.extend_from_slice(&1_u16.to_le_bytes());
    bytes.push(2);
    bytes.push(0);
    bytes.extend_from_slice(&0x0102_0304_u32.to_le_bytes());
    bytes.extend_from_slice(&4_u32.to_le_bytes());
    bytes.extend_from_slice(&2_u32.to_le_bytes());
    bytes.extend_from_slice(&3_u64.to_le_bytes());
    bytes.extend_from_slice(&3_u64.to_le_bytes());
    bytes.extend_from_slice(&3_u64.to_le_bytes());
    push_f32s(&mut bytes, &[1.0, 0.0, 0.0, 0.0, 0.0, 1.0, 0.0, 0.0]);
    push_f32s(&mut bytes, &[-0.1, 0.0, 0.1]);
    push_f32s(&mut bytes, &[0.0; 4]);
    push_u64s(&mut bytes, &[7, 42, 1001]);
    push_u64s(&mut bytes, &[0, 1, 2, 3]);
    push_u32s(&mut bytes, &[0, 1, 0]);
    bytes.extend_from_slice(&[0xaa; 3]);
    push_u64s(&mut bytes, &[0, 2, 3]);
    push_u32s(&mut bytes, &[0, 2, 1]);
    bytes
}

fn exhaustive_params(top_k: usize) -> PlaidSearchParams {
    PlaidSearchParams {
        n_ivf_probe: 2,
        n_full_scores: 3,
        top_k,
        centroid_score_threshold: None,
    }
}

fn filter_cost_index(tokens_per_document: usize, ids: &mut InstanceIds) -> PlaidIndex {
    const DOCUMENTS: usize = 128;
    let quantizer = small_quantizer();
    let total_tokens = DOCUMENTS * tokens_per_document;
    let packed_residuals = packed_zeros(&quantizer, total_tokens);
    let mut document_offsets = Vec::with_capacity(DOCUMENTS + 1);
    let mut token_codes = Vec::with_capacity(total_tokens);
    document_offsets.push(0);
    for document in 0..DOCUMENTS {
        for _ in 0..tokens_per_document {
            token_codes.push((document % 2) as u32);
        }
        document_offsets.push(token_codes.len() as u64);
    }
    PlaidIndex::try_new(
        two_centroids(),
        quantizer,
        (0..DOCUMENTS)
            .map(|ordinal| 1_000 + ordinal as u64)
            .collect(),
        document_offsets,
        token_codes,
        packed_residuals,
        ids,
    )
    .unwrap()
}

fn tie_index(ids: &mut InstanceIds) -> PlaidIndex {
    let quantizer = small_quantizer();
    let packed_residuals = packed_zeros(&quantizer, 4);
    PlaidIndex::try_new(
        matrix(
            4,
            4,
            &[
                1.0, 0.0, 0.0, 0.0, 1.0, 0.0, 0.0, 0.0, 0.0, 1.0, 0.0, 0.0, 0.0, 1.0, 0.0, 0.0,
            ],
        ),
        quantizer,
        vec![100, 101, 102, 103],
        vec![0, 1, 2, 3, 4],
        vec![0, 1, 2, 3],
        packed_residuals,
        ids,
    )
    .unwrap()
}

fn empty_document_index(ids: &mut InstanceIds) -> PlaidIndex {
    let quantizer = small_quantizer();
    let packed_residuals = packed_zeros(&quantizer, 1);
    PlaidIndex::try_new(
        matrix(1, 4, &[1.0, 0.0, 0.0, 0.0]),
        quantizer,
        vec![10, 20],
        vec![0, 1, 1],
        vec![0],
        packed_residuals,
        ids,
    )
    .unwrap()
}

fn retry_ceiling_index(ids: &mut InstanceIds) -> PlaidIndex {
    const DOCUMENTS: usize = 128;
    const CENTROIDS: usize = 8;
    let quantizer = small_quantizer();
    let mut centroids = Vec::new();
    for centroid in 0..CENTROIDS {
        for column in 0..4 {
            centroids.push(if column == 0 {
                (CENTROIDS - centroid) as f32
            } else {
                0.0
            });
        }
    }
    let packed_residuals = packed_zeros(&quantizer, DOCUMENTS);
    PlaidIndex::try_new(
        matrix(CENTROIDS, 4, &centroids),
        quantizer,
        (0..DOCUMENTS)
            .map(|ordinal| 2_000 + ordinal as u64)
            .collect(),
        (0..=DOCUMENTS as u64).collect(),
        (0..DOCUMENTS)
            .map(|ordinal| (ordinal % CENTROIDS) as u32)
            .collect(),
        packed_residuals,
        ids,
    )
    .unwrap()
}

fn one_token_query() -> Matrix {
    matrix(1, 4, &[1.0, 0.0, 0.0, 0.0])
}

fn two_token_query() -> Matrix {
    matrix(2, 4, &[1.0, 0.0, 0.0, 0.0, 0.0, 1.0, 0.0, 0.0])
}

fn addresses(hits: &[SearchHit]) -> Vec<u64> {
    hits.iter().map(|hit| hit.row_address).collect()
}

#[test]
fn two_bit_packing_matches_next_plaid_order() {
    let quantizer = ResidualQuantizer::try_new(
        2,
        bits(&[-1.0, 0.0, 1.0]),
        bits(&[-2.0, -0.5, 0.5, 2.0]),
    )
    .unwrap();
    let packed = quantizer
        .quantize(&matrix(1, 4, &[-2.0, -0.5, 0.5, 2.0]))
        .unwrap();
    assert_eq!(packed, vec![0x27]);
}

#[test]
fn four_bit_packing_matches_next_plaid_order() {
    let quantizer = ResidualQuantizer::try_new(
        4,
        (0..15).map(|value| (value as f32).to_bits()).collect(),
        (0..16).map(|value| (value as f32).to_bits()).collect(),
    )
    .unwrap();
    let packed = quantizer.quantize(&matrix(1, 2, &[-1.0, 100.0])).unwrap();
    assert_eq!(packed, vec![0x0f]);
}

#[test]
fn sums_per_query_token_maxima() {
    let query = matrix(2, 2, &[1.0, 0.0, 0.0, 1.0]);
    let document = matrix(3, 2, &[1.0, 0.0, 0.0, 1.0, -1.0, 0.0]);
    assert!((maxsim(&query, &document) - 2.0).abs() <= 1.0e-6);
}

#[test]
fn empty_document_has_no_finite_score() {
    let query = matrix(1, 2, &[1.0, 0.0]);
    let document = matrix(0, 2, &[]);
    assert_eq!(maxsim(&query, &document), f32::NEG_INFINITY);
}

#[test]
fn naive_and_quantized_maxsim_agree_for_exact_centroids() {
    let mut ids = InstanceIds::new();
    let index = test_index(2, &mut ids);
    let query = one_token_query();
    let reconstructed = reconstruct(&index, 0);
    let quantized = quantized_maxsim(&index, &query, 0).unwrap();
    assert!((maxsim(&query, &reconstructed) - quantized).abs() <= 1.0e-6);
    assert!((quantized - 1.0).abs() <= 1.0e-6);
}

#[test]
fn maps_non_contiguous_row_addresses_both_directions() {
    let mut ids = InstanceIds::new();
    let index = test_index(2, &mut ids);
    assert_eq!(index.row_address(0), Some(7));
    assert_eq!(index.row_address(2), Some(1001));
    assert_eq!(index.document_ordinal(7), Some(0));
    assert_eq!(index.document_ordinal(1001), Some(2));
    assert_eq!(index.document_ordinal(8), None);
}

#[test]
fn allow_and_block_masks_filter_postings() {
    let mut ids = InstanceIds::new();
    let index = test_index(2, &mut ids);
    let query = one_token_query();

    let allow = AddressEligibility::allow(vec![1001]);
    let (allowed, allowed_stats) = search(&index, &query, &exhaustive_params(1), &allow).unwrap();
    assert_eq!(allowed.len(), 1);
    assert_eq!(allowed[0].row_address, 1001);
    assert_eq!(allowed_stats.candidate_documents, 1);

    let block = AddressEligibility::block(vec![7]);
    let (unblocked, _) = search(&index, &query, &exhaustive_params(1), &block).unwrap();
    assert_eq!(unblocked.len(), 1);
    assert_eq!(unblocked[0].row_address, 1001);
}

#[test]
fn stable_ties_use_ascending_row_address() {
    let mut ids = InstanceIds::new();
    let index = test_index(4, &mut ids);
    let query = one_token_query();
    let (hits, stats) = search(&index, &query, &exhaustive_params(2), &AllEligible).unwrap();
    assert_eq!(addresses(&hits), vec![7, 1001]);
    assert_eq!(stats.centroids_probed, 2);
    assert_eq!(stats.candidate_documents, 3);
    assert_eq!(stats.exact_documents, 2);
    assert!(stats.total_nanos > 0);
}

#[test]
fn direct_quantized_residuals_are_bitwise_identical_to_exhaustive_legacy() {
    for nbits in [2, 4] {
        let mut ids = InstanceIds::new();
        let index = test_index(nbits, &mut ids);
        let query = two_token_query();
        let eligibility = AddressEligibility::allow(vec![7, 42, 1001]);
        let (legacy, legacy_stats) =
            search(&index, &query, &exhaustive_params(3), &eligibility).unwrap();
        let (direct, direct_stats) = search_quantized_residuals(&index, &query, &[0, 1, 2])
            .unwrap()
            .expect("all documents have tokens");

        assert_eq!(
            direct
                .iter()
                .map(|hit| (hit.document_ordinal, hit.row_address, hit.score))
                .collect::<Vec<_>>(),
            legacy
                .iter()
                .map(|hit| (hit.document_ordinal, hit.row_address, hit.score))
                .collect::<Vec<_>>()
        );
        assert_eq!(direct_stats.candidate_documents, 3);
        assert_eq!(direct_stats.approximate_documents, 0);
        assert_eq!(direct_stats.exact_documents, 3);
        assert_eq!(legacy_stats.exact_documents, 3);
    }
}

#[test]
fn direct_quantized_residuals_share_legacy_tie_breaking() {
    let mut ids = InstanceIds::new();
    let index = tie_index(&mut ids);
    let query = two_token_query();
    let params = PlaidSearchParams {
        n_ivf_probe: 4,
        n_full_scores: 16,
        top_k: 4,
        centroid_score_threshold: None,
    };
    let (legacy, _) = search(&index, &query, &params, &AllEligible).unwrap();
    let (direct, _) = search_quantized_residuals(&index, &query, &[0, 1, 2, 3])
        .unwrap()
        .expect("all documents have tokens");
    assert_eq!(direct, legacy);
    assert_eq!(addresses(&direct), vec![100, 101, 102, 103]);
}

#[test]
fn direct_quantized_residuals_reject_noncanonical_ordinals_and_fallback_on_empty_tokens() {
    let mut ids = InstanceIds::new();
    let index = empty_document_index(&mut ids);
    let query = one_token_query();
    assert!(search_quantized_residuals(&index, &query, &[0, 1])
        .unwrap()
        .is_none());
    for ordinals in [&[1_u32, 0][..], &[0_u32, 0][..]] {
        let error = search_quantized_residuals(&index, &query, ordinals).unwrap_err();
        assert!(error.to_string().contains("sorted and unique"));
    }
}

#[test]
fn eligible_centroid_cost_model_enables_only_selective_cheap_filters() {
    let mut ids = InstanceIds::new();
    let index = filter_cost_index(1, &mut ids);

    let unfiltered = index
        .plan_eligible_centroids(None, None, false, 1, 1)
        .unwrap();
    assert_eq!(unfiltered.decision(), EligibleCentroidDecision::Unfiltered);
    assert!(!unfiltered.is_enabled());

    let non_enumerable = index
        .plan_eligible_centroids(None, None, true, 1, 1)
        .unwrap();
    assert_eq!(
        non_enumerable.decision(),
        EligibleCentroidDecision::NonEnumerable
    );
    assert!(!non_enumerable.is_enabled());

    let empty = index
        .plan_eligible_centroids(Some(&[]), Some(0), true, 1, 1)
        .unwrap();
    assert_eq!(empty.decision(), EligibleCentroidDecision::Empty);
    assert!(empty.is_enabled());

    let selective = index
        .plan_eligible_centroids(Some(&[0, 1]), Some(2), true, 1, 1)
        .unwrap();
    assert_eq!(selective.decision(), EligibleCentroidDecision::Enabled);
    assert_eq!(selective.eligible_documents(), 2);
    assert_eq!(selective.eligible_tokens(), 2);
    assert_eq!(selective.eligible_token_codes_scanned(), 2);
    assert_eq!(selective.eligible_centroids(), 2);
    assert_eq!(selective.estimated_global_postings(), 64);

    let wide_ordinals = (0_u32..5).collect::<Vec<_>>();
    let wide = index
        .plan_eligible_centroids(Some(&wide_ordinals), Some(5), true, 1, 1)
        .unwrap();
    assert_eq!(wide.decision(), EligibleCentroidDecision::TooWide);
    assert!(!wide.is_enabled());
    assert_eq!(wide.eligible_token_codes_scanned(), 0);
    let wide_count_only = index
        .plan_eligible_centroids(None, Some(5), true, 1, 1)
        .unwrap();
    assert_eq!(
        wide_count_only.decision(),
        EligibleCentroidDecision::TooWide
    );
    assert_eq!(wide_count_only.eligible_documents(), 5);
    assert_eq!(wide_count_only.eligible_tokens(), 0);

    let token_heavy = filter_cost_index(16, &mut ids)
        .plan_eligible_centroids(Some(&[0, 1]), Some(2), true, 1, 1)
        .unwrap();
    assert_eq!(
        token_heavy.decision(),
        EligibleCentroidDecision::ScanCostTooHigh
    );
    assert!(!token_heavy.is_enabled());
    assert_eq!(token_heavy.eligible_token_codes_scanned(), 0);
}

#[test]
fn eligible_centroid_retry_expands_postings_incrementally() {
    let mut ids = InstanceIds::new();
    let index = filter_cost_index(1, &mut ids);
    let query = one_token_query();
    let plan = index
        .plan_eligible_centroids(Some(&[0, 1]), Some(2), true, 1, 1)
        .unwrap();
    let eligibility = AddressEligibility::allow(vec![1_000, 1_001]);
    let params = PlaidSearchParams {
        n_ivf_probe: 1,
        n_full_scores: 128,
        top_k: 2,
        centroid_score_threshold: None,
    };
    let (incremental, stats) =
        search_adaptive(&index, &query, &params, 2, 2, &eligibility, Some(&plan)).unwrap();

    let mut exhaustive = params;
    exhaustive.n_ivf_probe = 2;
    let (expected, expected_stats) = search(&index, &query, &exhaustive, &eligibility).unwrap();
    assert_eq!(incremental, expected);
    assert_eq!(stats.probe_rounds, 2);
    assert_eq!(stats.probe_retries, 1);
    assert_eq!(stats.configured_probes, 3);
    assert_eq!(stats.final_nprobe, 2);
    assert_eq!(stats.centroids_probed, 2);
    assert_eq!(stats.incremental_centroids_reused, 1);
    assert_eq!(stats.posting_entries_read, 128);
    assert_eq!(stats.posting_entries_eligible, 2);
    assert_eq!(
        stats.posting_entries_read,
        expected_stats.posting_entries_read
    );
    assert!(stats.eligible_centroid_selection_nanos > 0);
    assert_eq!(expected_stats.eligible_centroid_selection_nanos, 0);
}

#[test]
fn selection_times_count_only_among_eligible_centroids() {
    let mut ids = InstanceIds::new();
    let index = filter_cost_index(1, &mut ids);
    let restricted = index
        .plan_eligible_centroids(Some(&[0, 1]), Some(2), true, 1, 1)
        .unwrap();
    let unrestricted = index
        .plan_eligible_centroids(None, None, false, 1, 1)
        .unwrap();
    assert!(restricted.is_enabled() && !unrestricted.is_enabled());
    let mut stats = PlaidSearchStats::default();
    stats.record_selection(None, 5);
    stats.record_selection(Some(&unrestricted), 6);
    assert_eq!(stats.eligible_centroid_selection_nanos, 0);
    stats.record_selection(Some(&restricted), 7);
    stats.record_selection(Some(&restricted), 8);
    assert_eq!(stats.eligible_centroid_selection_nanos, 15);
    stats.record_selection(Some(&restricted), u64::MAX);
    assert_eq!(stats.eligible_centroid_selection_nanos, u64::MAX);
}

#[test]
fn empty_plan_skips_gemm_and_plan_identity_is_exact() {
    let mut ids = InstanceIds::new();
    let index = filter_cost_index(1, &mut ids);
    let query = one_token_query();
    let params = PlaidSearchParams {
        n_ivf_probe: 1,
        n_full_scores: 16,
        top_k: 2,
        centroid_score_threshold: None,
    };
    let empty_plan = index
        .plan_eligible_centroids(Some(&[]), Some(0), true, 1, 1)
        .unwrap();
    let (hits, stats) = search_adaptive(
        &index,
        &query,
        &params,
        2,
        2,
        &AllEligible,
        Some(&empty_plan),
    )
    .unwrap();
    assert!(hits.is_empty());
    assert_eq!(stats.centroid_probe_nanos, 0);
    assert_eq!(stats.probe_rounds, 0);
    assert_eq!(stats.posting_entries_read, 0);
    assert_eq!(stats.approximate_documents, 0);
    assert_eq!(stats.exact_documents, 0);

    let other_index = filter_cost_index(1, &mut ids);
    let error = search_adaptive(
        &other_index,
        &query,
        &params,
        2,
        2,
        &AllEligible,
        Some(&empty_plan),
    )
    .unwrap_err();
    assert!(error.to_string().contains("does not belong"));

    let cloned_index = index.clone(&mut ids);
    let error = search_adaptive(
        &cloned_index,
        &query,
        &params,
        2,
        2,
        &AllEligible,
        Some(&empty_plan),
    )
    .unwrap_err();
    assert!(error.to_string().contains("does not belong"));
    let (original_hits, _) = search_adaptive(
        &index,
        &query,
        &params,
        2,
        2,
        &AllEligible,
        Some(&empty_plan),
    )
    .unwrap();
    assert!(original_hits.is_empty());
}

#[test]
fn multi_token_ties_are_deterministic_and_thresholded() {
    let mut ids = InstanceIds::new();
    let index = tie_index(&mut ids);
    let query = two_token_query();
    let params = PlaidSearchParams {
        n_ivf_probe: 1,
        n_full_scores: 4,
        top_k: 2,
        centroid_score_threshold: Some(0.5_f32.to_bits()),
    };
    let (hits, stats) = search(&index, &query, &params, &AllEligible).unwrap();
    assert_eq!(addresses(&hits), vec![100, 102]);
    assert_eq!(stats.centroids_probed, 2);
    let (again, _) = search(&index, &query, &params, &AllEligible).unwrap();
    assert_eq!(again, hits);

    let mut above_ties = params;
    above_ties.centroid_score_threshold = Some(1.1_f32.to_bits());
    let (none, stats) = search(&index, &query, &above_ties, &AllEligible).unwrap();
    assert!(none.is_empty());
    assert_eq!(stats.centroids_probed, 0);
}

#[test]
fn maximum_probe_ceiling_stops_incremental_multi_round_retry() {
    let mut ids = InstanceIds::new();
    let index = retry_ceiling_index(&mut ids);
    let query = one_token_query();
    let plan = index
        .plan_eligible_centroids(Some(&[0, 1, 2, 3]), Some(4), true, 1, 1)
        .unwrap();
    assert_eq!(plan.decision(), EligibleCentroidDecision::Enabled);
    let eligibility = AddressEligibility::allow(vec![2_000, 2_001, 2_002, 2_003]);
    let params = PlaidSearchParams {
        n_ivf_probe: 1,
        n_full_scores: 128,
        top_k: 4,
        centroid_score_threshold: None,
    };
    let (ceiling_hits, ceiling_stats) =
        search_adaptive(&index, &query, &params, 3, 4, &eligibility, Some(&plan)).unwrap();
    assert_eq!(ceiling_hits.len(), 3);
    assert_eq!(ceiling_stats.probe_rounds, 3);
    assert_eq!(ceiling_stats.probe_retries, 2);
    assert_eq!(ceiling_stats.configured_probes, 6);
    assert_eq!(ceiling_stats.final_nprobe, 3);
    assert_eq!(ceiling_stats.centroids_probed, 3);
    assert_eq!(ceiling_stats.incremental_centroids_reused, 3);
    assert_eq!(ceiling_stats.posting_entries_read, 48);

    let (complete_hits, complete_stats) =
        search_adaptive(&index, &query, &params, 4, 4, &eligibility, Some(&plan)).unwrap();
    assert_eq!(complete_hits.len(), 4);
    assert_eq!(complete_stats.probe_rounds, 3);
    assert_eq!(complete_stats.probe_retries, 2);
    assert_eq!(complete_stats.final_nprobe, 4);
    assert_eq!(complete_stats.posting_entries_read, 64);
}

#[test]
fn versioned_file_round_trips_both_quantizers() {
    for nbits in [2, 4] {
        let mut ids = InstanceIds::new();
        let original = test_index(nbits, &mut ids);
        let bytes = original.to_bytes().unwrap();
        let restored = PlaidIndex::read_from_bytes(&bytes, &mut ids).unwrap();
        assert_eq!(restored.dimension(), original.dimension());
        assert_eq!(restored.row_addresses(), original.row_addresses());
        assert_eq!(restored.num_documents(), original.num_documents());
        assert_eq!(restored.num_tokens(), original.num_tokens());
        assert_eq!(restored.quantizer().nbits(), original.quantizer().nbits());
        assert_eq!(
            restored.quantizer().bucket_cutoffs(),
            original.quantizer().bucket_cutoffs()
        );
        assert_eq!(
            restored.quantizer().bucket_weights(),
            original.quantizer().bucket_weights()
        );
        assert!(!restored.has_exact_store());
        assert!(restored.exact_store_row_ids().is_none());
        assert!(restored.exact_document(0).unwrap().is_none());

        let query = one_token_query();
        let (expected, _) =
            search(&original, &query, &exhaustive_params(2), &AllEligible).unwrap();
        let (actual, _) = search(&restored, &query, &exhaustive_params(2), &AllEligible).unwrap();
        assert_eq!(actual, expected);
    }
}

#[test]
fn v1_encoding_matches_the_frozen_legacy_fixture() {
    let mut ids = InstanceIds::new();
    let bytes = test_index(2, &mut ids).to_bytes().unwrap();
    assert_eq!(bytes, legacy_v1_fixture_bytes());
    assert_eq!(&bytes[8..10], &1_u16.to_le_bytes());
    assert_eq!(bytes[11], 0);

    let restored = PlaidIndex::read_from_bytes(&bytes, &mut ids).unwrap();
    assert!(!restored.has_exact_store());
    assert_eq!(restored.to_bytes().unwrap(), bytes);
}

#[test]
fn v2_exact_store_round_trips_and_borrows_ordinal_aligned_documents() {
    for nbits in [2, 4] {
        let mut ids = InstanceIds::new();
        let original = exact_test_index(nbits, &mut ids);
        let base_size = test_index(nbits, &mut ids).estimated_size_bytes();
        assert!(original.has_exact_store());
        assert_eq!(
            original.exact_store_row_ids(),
            Some(&[9001, 7007, 8008][..])
        );
        assert_eq!(original.exact_public_row_id(0), Some(9001));
        assert_eq!(original.exact_public_row_id(2), Some(8008));
        assert_eq!(original.exact_public_row_id(3), None);
        assert_eq!(
            original.estimated_size_bytes() - base_size,
            3 * std::mem::size_of::<u64>() + 12 * std::mem::size_of::<f32>()
        );

        let first = original.exact_document(0).unwrap().unwrap();
        let empty = original.exact_document(1).unwrap().unwrap();
        let third = original.exact_document(2).unwrap().unwrap();
        assert_eq!([first.rows, first.columns], [2, 4]);
        assert_eq!(
            floats(first.values),
            vec![1.0, 2.0, 3.0, 4.0, 5.0, 6.0, 7.0, 8.0]
        );
        assert_eq!([empty.rows, empty.columns], [0, 4]);
        assert!(empty.values.is_empty());
        assert_eq!(floats(third.values), vec![9.0, 10.0, 11.0, 12.0]);
        assert_eq!(
            third.values.as_ptr(),
            first.values.as_ptr().wrapping_add(first.values.len()),
            "adjacent views must borrow the contiguous exact-store allocation"
        );
        assert!(original.exact_document(3).is_err());

        let cloned = original.clone(&mut ids);
        assert!(cloned.has_exact_store());
        assert_eq!(
            floats(cloned.exact_document(2).unwrap().unwrap().values),
            vec![9.0, 10.0, 11.0, 12.0]
        );

        let bytes = original.to_bytes().unwrap();
        assert_eq!(&bytes[8..10], &2_u16.to_le_bytes());
        assert_eq!(bytes[11], 1);
        let restored = PlaidIndex::read_from_bytes(&bytes, &mut ids).unwrap();
        assert!(restored.has_exact_store());
        assert_eq!(
            restored.exact_store_row_ids(),
            original.exact_store_row_ids()
        );
        for ordinal in 0..original.num_documents() as u32 {
            assert_eq!(
                restored.exact_document(ordinal).unwrap().unwrap().values,
                original.exact_document(ordinal).unwrap().unwrap().values
            );
        }
        assert_eq!(restored.to_bytes().unwrap(), bytes);
    }
}

fn make_exact_store(row_ids: Vec<u64>, raw: Vec<f32>) -> Result<PlaidIndex, Error> {
    let mut ids = InstanceIds::new();
    let quantizer = small_quantizer();
    let packed_residuals = packed_zeros(&quantizer, 3);
    PlaidIndex::try_new_with_exact_store(
        two_centroids(),
        quantizer,
        vec![7, 42, 1001],
        vec![0, 1, 2, 3],
        vec![0, 1, 0],
        packed_residuals,
        row_ids,
        bits(&raw),
        &mut ids,
    )
}

#[test]
fn exact_store_constructor_rejects_invalid_lengths_and_non_finite_values() {
    let error = make_exact_store(vec![1, 2], vec![0.0; 12]).unwrap_err();
    assert!(error.to_string().contains("public row ID length"));
    let error = make_exact_store(vec![1, 2, 3], vec![0.0; 11]).unwrap_err();
    assert!(error.to_string().contains("raw token value length"));
    let mut non_finite = vec![0.0; 12];
    non_finite[7] = f32::INFINITY;
    let error = make_exact_store(vec![1, 2, 3], non_finite).unwrap_err();
    assert!(error.to_string().contains("must be finite"));
}

#[test]
fn versioned_bytes_reject_unknown_version() {
    let mut ids = InstanceIds::new();
    let index = test_index(2, &mut ids);
    let mut bytes = index.to_bytes().unwrap();
    bytes[8..10].copy_from_slice(&3_u16.to_le_bytes());
    let error = PlaidIndex::read_from_bytes(&bytes, &mut ids).unwrap_err();
    assert!(error.to_string().contains("unsupported format version 3"));
}

#[test]
fn versioned_bytes_reject_invalid_flags_truncation_trailing_and_non_finite_exact_values() {
    let mut ids = InstanceIds::new();
    let mut v1_flags = test_index(2, &mut ids).to_bytes().unwrap();
    v1_flags[11] = 1;
    assert!(PlaidIndex::read_from_bytes(&v1_flags, &mut ids)
        .unwrap_err()
        .to_string()
        .contains("V1 flags must be zero"));

    let valid_v2 = exact_test_index(2, &mut ids).to_bytes().unwrap();
    for flags in [0, 2, 3] {
        let mut invalid = valid_v2.clone();
        invalid[11] = flags;
        let message = PlaidIndex::read_from_bytes(&invalid, &mut ids)
            .unwrap_err()
            .to_string();
        assert!(message.contains("exact-store flag") || message.contains("unknown flags"));
    }

    let mut truncated = valid_v2.clone();
    truncated.pop();
    assert!(PlaidIndex::read_from_bytes(&truncated, &mut ids)
        .unwrap_err()
        .to_string()
        .contains("encoded length mismatch"));
    let mut trailing = valid_v2.clone();
    trailing.push(0);
    assert!(PlaidIndex::read_from_bytes(&trailing, &mut ids)
        .unwrap_err()
        .to_string()
        .contains("encoded length mismatch"));

    let mut non_finite = valid_v2;
    let raw_start = non_finite.len() - 12 * std::mem::size_of::<f32>();
    non_finite[raw_start..raw_start + 4].copy_from_slice(&f32::NAN.to_le_bytes());
    assert!(PlaidIndex::read_from_bytes(&non_finite, &mut ids)
        .unwrap_err()
        .to_string()
        .contains("must be finite"));
}

#[test]
fn v2_header_rejects_exact_value_length_overflow_before_allocation() {
    let mut ids = InstanceIds::new();
    let mut bytes = exact_test_index(2, &mut ids).to_bytes().unwrap();
    bytes[16..20].copy_from_slice(&8_u32.to_le_bytes());
    let overflowing_tokens = (usize::MAX / 8 + 1) as u64;
    bytes[32..40].copy_from_slice(&overflowing_tokens.to_le_bytes());
    let error = PlaidIndex::read_from_bytes(&bytes, &mut ids).unwrap_err();
    assert!(error
        .to_string()
        .contains("exact-store value count overflow"));
}

#[test]
fn versioned_bytes_reject_unbounded_header_counts_before_allocation() {
    let mut ids = InstanceIds::new();
    let index = test_index(2, &mut ids);
    let mut bytes = index.to_bytes().unwrap();
    bytes[32..40].copy_from_slice(&u64::MAX.to_le_bytes());
    let error = PlaidIndex::read_from_bytes(&bytes, &mut ids).unwrap_err();
    assert!(
        error.to_string().contains("overflow")
            || error.to_string().contains("encoded length mismatch")
    );

    let valid_bytes = index.to_bytes().unwrap();
    let truncated = &valid_bytes[..47];
    let error = PlaidIndex::read_from_bytes(truncated, &mut ids).unwrap_err();
    assert!(error
        .to_string()
        .contains("shorter than the 48-byte header"));
}

#[test]
fn instance_identities_count_up_from_one() {
    let mut ids = InstanceIds::new();
    let first = test_index(2, &mut ids);
    let second = first.clone(&mut ids);
    assert_eq!(first.instance_id(), 1);
    assert_eq!(second.instance_id(), 2);
    assert_eq!(ids.next_plaid_instance_id(), 3);
}

#[test]
fn unpacking_a_token_gives_the_weights_of_its_buckets() {
    let quantizer = ResidualQuantizer::try_new(
        2,
        bits(&[-1.0, 0.0, 1.0]),
        bits(&[-2.0, -0.5, 0.5, 2.0]),
    )
    .unwrap();
    let packed = quantizer
        .quantize(&matrix(1, 4, &[-2.0, -0.5, 0.5, 2.0]))
        .unwrap();
    let weights = quantizer.reconstruct_token(&packed, 4, 4).unwrap();
    assert_eq!(floats(&weights), vec![-2.0, -0.5, 0.5, 2.0]);
    let error = quantizer.reconstruct_token(&packed, 4, 3).unwrap_err();
    assert!(error.to_string().contains("does not match centroid dimension"));
    let error = quantizer.reconstruct_token(&[], 4, 4).unwrap_err();
    assert!(error.to_string().contains("packed residual length must be 1"));
}

#[test]
fn quantizers_refuse_what_they_cannot_hold() {
    let refused = |nbits: u8, cutoffs: &[f32], weights: &[f32]| {
        ResidualQuantizer::try_new(nbits, bits(cutoffs), bits(weights))
            .unwrap_err()
            .to_string()
    };
    assert!(refused(3, &[], &[]).contains("nbits must be 2 or 4, got 3"));
    assert!(refused(2, &[0.0], &[0.0; 4]).contains("bucket_cutoffs length must be 3, got 1"));
    assert!(refused(2, &[0.0; 3], &[0.0]).contains("bucket_weights length must be 4, got 1"));
    assert!(refused(2, &[0.0, f32::NAN, 1.0], &[0.0; 4]).contains("must be finite"));
    assert!(refused(2, &[0.0, 2.0, 1.0], &[0.0; 4]).contains("ascending order"));
    let error = small_quantizer().quantize(&matrix(1, 3, &[0.0; 3])).unwrap_err();
    assert!(error.to_string().contains("must be divisible by 8"));
    let error = small_quantizer()
        .quantize(&matrix(1, 4, &[0.0, 0.0, 0.0, f32::INFINITY]))
        .unwrap_err();
    assert!(error.to_string().contains("residual values must be finite"));
}

#[test]
fn searches_refuse_bad_queries_and_budgets() {
    let mut ids = InstanceIds::new();
    let index = test_index(2, &mut ids);
    let refused = |query: &Matrix, params: &PlaidSearchParams| {
        search(&index, query, params, &AllEligible)
            .unwrap_err()
            .to_string()
    };
    let params = exhaustive_params(1);
    assert!(refused(&matrix(0, 4, &[]), &params)
        .contains("query shape must be [positive, 4], got [0, 4]"));
    assert!(refused(&matrix(1, 4, &[0.0, 0.0, f32::NAN, 0.0]), &params)
        .contains("query values must be finite"));
    let mut no_results = params;
    no_results.top_k = 0;
    assert!(refused(&one_token_query(), &no_results).contains("must be positive, got 2, 3, 0"));
    let mut no_threshold = params;
    no_threshold.centroid_score_threshold = Some(f32::INFINITY.to_bits());
    assert!(refused(&one_token_query(), &no_threshold)
        .contains("centroid_score_threshold must be finite"));
}

#[test]
fn segments_refuse_documents_that_do_not_fit_together() {
    let build = |addresses: Vec<u64>, offsets: Vec<u64>, codes: Vec<u32>| {
        let mut ids = InstanceIds::new();
        let quantizer = small_quantizer();
        let packed = packed_zeros(&quantizer, 3);
        PlaidIndex::try_new(
            two_centroids(),
            quantizer,
            addresses,
            offsets,
            codes,
            packed,
            &mut ids,
        )
        .unwrap_err()
        .to_string()
    };
    assert!(build(vec![7, 7], vec![0, 1, 3], vec![0, 1, 0])
        .contains("row addresses must be strictly increasing"));
    assert!(build(vec![7, 8], vec![0, 4, 3], vec![0, 1, 0])
        .contains("invalid token range 0..4 for document 0"));
    assert!(build(vec![7, 8], vec![0, 1, 3], vec![0, 2, 0])
        .contains("token code 2 is out of range for 2 centroids"));
    assert!(build(vec![7, 8], vec![], vec![0, 1, 0]).contains("at least one entry"));
    assert!(build(vec![7, 8], vec![0, 1, 2], vec![0, 1, 0])
        .contains("document offsets must be monotonic"));
}

#[test]
fn exhaustive_probing_finds_every_visible_document_with_tokens() {
    let mut ids = InstanceIds::new();
    let with_empty = empty_document_index(&mut ids);
    let (hits, _) = search(
        &with_empty,
        &one_token_query(),
        &exhaustive_params(2),
        &AllEligible,
    )
    .unwrap();
    assert_eq!(addresses(&hits), vec![10]);

    let index = retry_ceiling_index(&mut ids);
    let params = PlaidSearchParams {
        n_ivf_probe: 8,
        n_full_scores: 1024,
        top_k: 128,
        centroid_score_threshold: None,
    };
    let (all, stats) = search(&index, &one_token_query(), &params, &AllEligible).unwrap();
    let mut found = addresses(&all);
    found.sort_unstable();
    assert_eq!(found, (2_000..2_128).collect::<Vec<u64>>());
    assert_eq!(stats.centroids_probed, 8);

    let hidden = AddressEligibility::block(vec![2_003, 2_100]);
    let (visible, _) = search(&index, &one_token_query(), &params, &hidden).unwrap();
    assert_eq!(visible.len(), 126);
    assert!(visible
        .iter()
        .all(|hit| hit.row_address != 2_003 && hit.row_address != 2_100));
}
