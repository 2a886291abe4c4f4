use lance_plaid::codec::ResidualQuantizer;
use lance_plaid::index::{InstanceIds, PlaidIndex};
use lance_plaid::matrix::Matrix;
use lance_plaid::training::{
    append_raw_residual, bucket_quantiles, check_batch, check_norm, count_plaid_tokens,
    nearest_centroid, next_plaid_num_centroids, quantile, requested_centroids, trained_centroids,
    training_sample_size, validate_token, vector_dimension, ColumnType, DocumentEncoder,
    QuantileTerms, TokenSample,
};
use lance_plaid::vector_index::PlaidIndexParams;

fn bits(values: &[f32]) -> Vec<u32> {
    values.iter().map(|value| value.to_bits()).collect()
}

fn matrix(rows: usize, columns: usize, values: &[f32]) -> Matrix {
    Matrix::from_shape_vec(rows, columns, bits(values)).unwrap()
}

fn interpolate(terms: Option<QuantileTerms>) -> f32 {
    match terms {
        None => 0.0,
        Some(terms) => {
            let weight = terms.parts as f32 / terms.of_parts as f32;
            f32::from_bits(terms.lower) * (1.0 - weight) + f32::from_bits(terms.upper) * weight
        }
    }
}

#[test]
fn automatic_centroids_match_next_plaid_rule() {
    assert_eq!(next_plaid_num_centroids(65_536).unwrap(), 4_096);
    assert_eq!(next_plaid_num_centroids(1_000_000).unwrap(), 8_192);
    assert_eq!(next_plaid_num_centroids(1).unwrap(), 1);
}

#[test]
fn automatic_centroids_bracket_sixteen_roots() {
    assert_eq!(
        next_plaid_num_centroids(0).unwrap_err().to_string(),
        "PLAID cannot train on an empty multi-vector column"
    );
    assert_eq!(next_plaid_num_centroids(255).unwrap(), 128);
    assert_eq!(next_plaid_num_centroids(256).unwrap(), 256);
    assert_eq!(next_plaid_num_centroids(1_023).unwrap(), 256);
    assert_eq!(next_plaid_num_centroids(1_024).unwrap(), 512);
    for tokens in [300_usize, 5_000, 123_456, 40_000_000] {
        let centroids = next_plaid_num_centroids(tokens).unwrap();
        let exponent = (16.0_f64 * (tokens as f64).sqrt()).log2().floor() as u32;
        assert_eq!(centroids, 1_usize << exponent);
    }
}

#[test]
fn centroid_exponents_are_those_of_double_precision() {
    // Powers of four, and how far below them a count is taken for the power.
    let reaches = [
        (24_u32, 0_u64),
        (25, 2),
        (26, 11),
        (27, 45),
        (28, 180),
        (29, 1_424),
        (30, 5_696),
        (31, 22_784),
        (32, 91_136),
    ];
    for (power, reach) in reaches {
        let next = 1_u128 << (2 * power);
        for below in [0_u64, 1, 2, 3, reach, reach + 1, reach + 2, 1_000_000] {
            let count = next - u128::from(below);
            if count > usize::MAX as u128 {
                continue;
            }
            let tokens = count as usize;
            let exponent = (16.0_f64 * (tokens as f64).sqrt()).log2().floor() as u32;
            assert_eq!(
                next_plaid_num_centroids(tokens).unwrap(),
                1_usize << exponent,
                "{tokens} tokens"
            );
            let expected = power + if below <= reach { 4 } else { 3 };
            assert_eq!(exponent, expected, "{tokens} tokens");
        }
    }
    assert_eq!(next_plaid_num_centroids((1 << 50) - 3).unwrap(), 1 << 28);
    assert_eq!(next_plaid_num_centroids((1 << 50) - 1).unwrap(), 1 << 29);
    assert_eq!(next_plaid_num_centroids(usize::MAX).unwrap(), 1 << 36);
}

#[test]
fn pooled_token_residual_uses_raw_next_plaid_semantics() {
    let token = bits(&[0.5, 0.0, 0.0, 0.0]);
    let centroid = bits(&[1.0, 0.0, 0.0, 0.0]);
    let mut terms = Vec::new();
    append_raw_residual(&token, &centroid, &mut terms).unwrap();
    let residual = terms
        .iter()
        .map(|term| f32::from_bits(term.value) - f32::from_bits(term.centroid))
        .collect::<Vec<_>>();
    assert_eq!(residual, vec![-0.5, 0.0, 0.0, 0.0]);
    let error = append_raw_residual(&token[..3], &centroid, &mut terms).unwrap_err();
    assert_eq!(
        error.to_string(),
        "PLAID token dimension 3 differs from centroid dimension 4"
    );
    assert_eq!(terms.len(), 4);
}

#[test]
fn columns_are_lists_of_vectors_that_pack_into_bytes() {
    let params = PlaidIndexParams::default();
    let dimension =
        |column: ColumnType| vector_dimension(&params, column, "the type").map_err(|e| e.to_string());
    assert_eq!(dimension(ColumnType::MultiVector { dimension: 128 }), Ok(128));
    assert_eq!(
        dimension(ColumnType::MultiVector { dimension: 6 }),
        Err("PLAID requires dimension * nbits to be a positive multiple of 8, got dimension=6, nbits=2".to_string())
    );
    assert_eq!(
        dimension(ColumnType::MultiVector { dimension: -1 }),
        Err("PLAID vector dimension does not fit usize".to_string())
    );
    assert_eq!(
        dimension(ColumnType::OtherList),
        Err("PLAID requires List<FixedSizeList<Float32>>, got the type".to_string())
    );
    assert_eq!(
        dimension(ColumnType::Other),
        Err("PLAID requires a multi-vector List column, got the type".to_string())
    );
    let bad = PlaidIndexParams { nbits: 8, ..params };
    assert!(vector_dimension(&bad, ColumnType::Other, "").is_err());
}

#[test]
fn training_sizes_follow_the_request() {
    let params = PlaidIndexParams::default();
    assert_eq!(requested_centroids(&params, 65_536).unwrap(), 4_096);
    let fixed = PlaidIndexParams {
        num_centroids: 10,
        ..params
    };
    assert_eq!(requested_centroids(&fixed, 0).unwrap(), 10);
    assert!(requested_centroids(&params, 0).is_err());
    assert_eq!(training_sample_size(10, &params).unwrap(), 2_560);
    assert_eq!(
        training_sample_size(usize::MAX, &params)
            .unwrap_err()
            .to_string(),
        "PLAID training sample size overflow"
    );
    assert_eq!(trained_centroids(10, 4).unwrap(), 4);
    assert_eq!(trained_centroids(10, 40).unwrap(), 10);
    assert!(trained_centroids(10, 0).is_err());
}

#[test]
fn tokens_are_counted_without_null_documents() {
    let counted = count_plaid_tokens(5, &[Some(3), None, Some(4)]).unwrap();
    assert_eq!(counted, 12);
    assert_eq!(
        count_plaid_tokens(5, &[Some(usize::MAX), None])
            .unwrap_err()
            .to_string(),
        "PLAID token count overflow"
    );
}

#[test]
fn tokens_are_finite_and_have_a_norm() {
    assert!(validate_token(&bits(&[0.0])).is_ok());
    assert!(validate_token(&[]).is_err());
    assert!(validate_token(&bits(&[f32::NAN])).is_err());
    assert!(check_norm(1.0_f32.to_bits()).is_ok());
    assert!(check_norm(2.0e-12_f32.to_bits()).is_ok());
    assert!(check_norm(1.0e-12_f32.to_bits()).is_err());
    assert_eq!(
        check_norm(0.0_f32.to_bits()).unwrap_err().to_string(),
        "PLAID token vectors must have non-zero norm"
    );
}

#[test]
fn samples_fill_up_and_are_overwritten_in_place() {
    let (mut sample, mut rng) = TokenSample::new(2, 2, 42).unwrap();
    sample.offer(Some(&bits(&[1.0, 2.0])), &mut rng).unwrap();
    assert_eq!(sample.len(), 1);
    sample.offer(Some(&bits(&[3.0, 4.0])), &mut rng).unwrap();
    assert_eq!(sample.values(), &bits(&[1.0, 2.0, 3.0, 4.0]));
    sample.place(&bits(&[5.0, 6.0]), 0).unwrap();
    assert_eq!(sample.values(), &bits(&[5.0, 6.0, 3.0, 4.0]));
    sample.place(&bits(&[7.0, 8.0]), 2).unwrap();
    assert_eq!(sample.values(), &bits(&[5.0, 6.0, 3.0, 4.0]));
    assert_eq!(sample.len(), 2);
    assert_eq!(
        sample.offer(None, &mut rng).unwrap_err().to_string(),
        "PLAID does not support null token vectors"
    );
    let error = sample
        .offer(Some(&bits(&[f32::INFINITY, 0.0])), &mut rng)
        .unwrap_err();
    assert!(error.to_string().contains("non-empty and finite"));
    assert!(TokenSample::new(4_096, usize::MAX, 42).is_err());
}

#[test]
fn places_are_drawn_once_the_sample_is_full() {
    let (mut sample, mut rng) = TokenSample::new(2, 1, 42).unwrap();
    assert_eq!(sample.draw_bound(), None);
    sample.place(&bits(&[1.0]), 9).unwrap();
    assert_eq!(sample.draw_bound(), None);
    sample.offer(Some(&bits(&[2.0])), &mut rng).unwrap();
    assert_eq!(sample.draw_bound(), Some(2));
    sample.place(&bits(&[3.0]), 1).unwrap();
    assert_eq!(sample.draw_bound(), Some(3));
    assert_eq!(sample.values(), &bits(&[1.0, 3.0]));
}

#[test]
fn null_documents_are_not_sampled() {
    let (mut sample, mut rng) = TokenSample::new(3, 2, 42).unwrap();
    let document = vec![Some(bits(&[1.0, 2.0])), Some(bits(&[3.0, 4.0]))];
    sample.offer_document(Some(&document), &mut rng).unwrap();
    sample.offer_document(None, &mut rng).unwrap();
    sample.offer_document(Some(&vec![]), &mut rng).unwrap();
    assert_eq!(sample.len(), 2);
    assert_eq!(sample.values(), &bits(&[1.0, 2.0, 3.0, 4.0]));
    let holed = vec![Some(bits(&[5.0, 6.0])), None, Some(bits(&[7.0, 8.0]))];
    assert_eq!(
        sample
            .offer_document(Some(&holed), &mut rng)
            .unwrap_err()
            .to_string(),
        "PLAID does not support null token vectors"
    );
    assert_eq!(sample.values(), &bits(&[1.0, 2.0, 3.0, 4.0, 5.0, 6.0]));
}

#[test]
fn drawn_samples_keep_late_tokens_too() {
    let (mut sample, mut rng) = TokenSample::new(10, 1, 42).unwrap();
    for token in 0..1_000 {
        sample
            .offer(Some(&bits(&[token as f32])), &mut rng)
            .unwrap();
    }
    assert_eq!(sample.len(), 10);
    let values = sample.values();
    assert_eq!(values.len(), 10);
    assert!(values
        .iter()
        .all(|value| (0.0..1_000.0).contains(&f32::from_bits(*value))));
    assert!(values
        .iter()
        .any(|value| f32::from_bits(*value) >= 10.0));
}

#[test]
fn tokens_go_to_the_first_of_the_nearest_centroids() {
    assert_eq!(nearest_centroid(&bits(&[0.5, 0.75, 0.75, 0.25])), 1);
    assert_eq!(nearest_centroid(&bits(&[-0.0, 0.0])), 1);
    assert_eq!(nearest_centroid(&[]), 0);
    assert_eq!(
        DocumentEncoder::assign(&bits(&[0.5, 0.75, 0.75])).unwrap(),
        1
    );
}

#[test]
fn quantiles_lie_between_sorted_values() {
    let values = bits(&[4.0, 1.0, 3.0, 2.0, 5.0]);
    assert_eq!(interpolate(quantile(&values, 1, 4)), 2.0);
    assert_eq!(interpolate(quantile(&values, 1, 8)), 1.5);
    assert_eq!(interpolate(quantile(&values, 0, 4)), 1.0);
    assert_eq!(interpolate(quantile(&values, 4, 4)), 5.0);
    assert_eq!(interpolate(quantile(&[], 1, 4)), 0.0);
    let (cutoffs, weights) = bucket_quantiles(&values, 2);
    assert_eq!(
        cutoffs.into_iter().map(interpolate).collect::<Vec<_>>(),
        vec![2.0, 3.0, 4.0]
    );
    assert_eq!(
        weights.into_iter().map(interpolate).collect::<Vec<_>>(),
        vec![1.5, 2.5, 3.5, 4.5]
    );
    let (cutoffs, weights) = bucket_quantiles(&values, 4);
    assert_eq!((cutoffs.len(), weights.len()), (15, 16));
}

fn encoder() -> DocumentEncoder {
    let quantizer =
        ResidualQuantizer::try_new(2, bits(&[-0.1, 0.0, 0.1]), bits(&[0.0; 4])).unwrap();
    DocumentEncoder::new(4, 2, quantizer)
}

fn centroids() -> Matrix {
    matrix(2, 4, &[1.0, 0.0, 0.0, 0.0, 0.0, 1.0, 0.0, 0.0])
}

#[test]
fn encoded_documents_make_up_a_segment() {
    let mut encoder = encoder();
    encoder
        .add_document(7, &[0, 1], &matrix(2, 4, &[0.0; 8]))
        .unwrap();
    encoder.add_document(42, &[], &matrix(0, 4, &[])).unwrap();
    encoder
        .add_document(1001, &[1], &matrix(1, 4, &[0.5, -0.5, 0.05, -0.05]))
        .unwrap();
    assert!(encoder.start_document(1002, false).unwrap());
    assert!(!encoder.start_document(1002, true).unwrap());
    assert!(!encoder.start_document(1001, true).unwrap());
    let error = encoder.start_document(1001, false).unwrap_err();
    assert_eq!(
        error.to_string(),
        "PLAID build requires strictly increasing physical row addresses"
    );
    let error = encoder
        .add_document(1002, &[1], &matrix(1, 4, &[f32::NAN, 0.0, 0.0, 0.0]))
        .unwrap_err();
    assert_eq!(
        error.to_string(),
        "PLAID index error: invalid PLAID input: residual values must be finite"
    );
    let mut ids = InstanceIds::new();
    let index = encoder.finish(centroids(), &mut ids).unwrap();
    assert_eq!(index.num_documents(), 3);
    assert_eq!(index.num_tokens(), 3);
    assert_eq!(index.document_ordinal(1001), Some(2));
    assert_eq!(index.document_token_range(1).unwrap(), (2, 2));
    assert_eq!(index.posting_range(1).unwrap(), (1, 3));
    let bytes = index.to_bytes().unwrap();
    let restored = PlaidIndex::read_from_bytes(&bytes, &mut ids).unwrap();
    assert_eq!(restored.to_bytes().unwrap(), bytes);
}

#[test]
fn nothing_encoded_is_no_segment() {
    let mut ids = InstanceIds::new();
    let error = encoder().finish(centroids(), &mut ids).unwrap_err();
    assert_eq!(
        error.to_string(),
        "PLAID cannot build an index without non-null documents"
    );
    assert!(check_batch(3, 3).is_ok());
    assert_eq!(
        check_batch(3, 4).unwrap_err().to_string(),
        "PLAID row-address count 3 differs from document count 4"
    );
}
