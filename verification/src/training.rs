//! Building a segment from a multi-vector column.
//!
//! Vector arithmetic happens outside. What is decided here is which tokens are
//! sampled, how many centroids are trained, which centroid a token is assigned
//! to, where the buckets of the quantizer lie, and how encoded documents make up
//! a segment.

use crate::codec::{all_finite, bucket_count, quantize_fault, Codebook, ResidualQuantizer};
use crate::database::{
    kernel_trouble, plaid_error, DatabaseError, DatabaseResult, Trouble,
};
use crate::index::{
    addresses_increase, all_below, build_fault, built_postings_are_consistent, built_segment,
    divides, InstanceIds, PlaidIndex, Segment,
};
use crate::matrix::{Grid, Matrix};
use crate::pipeline::mapped_rearrangement;
use crate::postings::MAX_DOCUMENTS;
use crate::random::{random_up_to, seed_from_u64};
use crate::scalar;
use crate::search::smaller;
use crate::sort::{ascending, ascending_is_sorted_permutation, sort, TotalOrder};
use crate::text::{decimal, text_two_numbers};
use crate::vector_index::PlaidIndexParams;
use rand::rngs::SmallRng;
use vstd::arithmetic::power2::pow2;
use vstd::prelude::*;
use vstd::relations::*;

verus! {

/// The type of a column, as far as an index needs it.
#[derive(Clone, Copy, Debug)]
pub enum ColumnType {
    /// Lists of single-precision vectors of one dimension.
    MultiVector { dimension: i32 },
    /// Lists of something else.
    OtherList,
    /// No lists.
    Other,
}

/// Why a column cannot be indexed.
pub open spec fn column_trouble(params: PlaidIndexParams, column: ColumnType, name: Seq<char>) -> Option<
    Trouble,
> {
    if params.trouble() is Some {
        params.trouble()
    } else {
        match column {
            ColumnType::Other => Some(
                Trouble::InvalidInput("PLAID requires a multi-vector List column, got "@ + name),
            ),
            ColumnType::OtherList => Some(
                Trouble::InvalidInput("PLAID requires List<FixedSizeList<Float32>>, got "@ + name),
            ),
            ColumnType::MultiVector { dimension } => if dimension < 0 {
                Some(Trouble::InvalidInput("PLAID vector dimension does not fit usize"@))
            } else if dimension == 0 || smaller(
                dimension as nat * params.nbits as nat,
                usize::MAX as nat,
            ) % 8 != 0 {
                Some(
                    Trouble::InvalidInput(
                        "PLAID requires dimension * nbits to be a positive multiple of 8, got dimension="@
                            + decimal(dimension as nat) + ", nbits="@ + decimal(
                            params.nbits as nat,
                        ),
                    ),
                )
            } else {
                None
            },
        }
    }
}

fn named(head: &str, name: &str) -> (result: DatabaseError)
    ensures
        result@ == Trouble::InvalidInput(head@ + name@),
{
    let mut text = head.to_owned();
    text.push_str(name);
    DatabaseError::InvalidInput(text)
}

/// The dimension of the vectors of a column that can be indexed. `name` is the
/// name of its type.
pub fn vector_dimension(params: &PlaidIndexParams, column: ColumnType, name: &str) -> (result:
    DatabaseResult<usize>)
    ensures
        match result {
            Ok(size) => column_trouble(*params, column, name@) is None && column is MultiVector
                && size == column->dimension,
            Err(error) => column_trouble(*params, column, name@) == Some(error@),
        },
{
    params.validate()?;
    let dimension: i32 = match column {
        ColumnType::Other => {
            return Err(named("PLAID requires a multi-vector List column, got ", name));
        },
        ColumnType::OtherList => {
            return Err(named("PLAID requires List<FixedSizeList<Float32>>, got ", name));
        },
        ColumnType::MultiVector { dimension } => dimension,
    };
    if dimension < 0 {
        return Err(DatabaseError::invalid_input("PLAID vector dimension does not fit usize"));
    }
    let size: usize = dimension as usize;
    let bits: u64 = size as u64 * params.nbits as u64;
    let capped: u64 = if bits < usize::MAX as u64 {
        bits
    } else {
        usize::MAX as u64
    };
    if size == 0 || capped % 8 != 0 {
        return Err(
            DatabaseError::InvalidInput(
                text_two_numbers(
                    "PLAID requires dimension * nbits to be a positive multiple of 8, got dimension=",
                    size as u64,
                    ", nbits=",
                    params.nbits as u64,
                ),
            ),
        );
    }
    Ok(size)
}

/// How often a number can be divided by four before less than four is left.
pub open spec fn quarterings(value: nat) -> nat
    decreases value,
{
    if value < 4 {
        0
    } else {
        1 + quarterings(value / 4)
    }
}

/// How far below a power of four a number of tokens is taken for that power.
///
/// The binary logarithm of sixteen times the square root of the tokens is
/// computed in double precision. Just below a power of four it is nearer to the
/// whole number above than to the next smaller value of that precision. The
/// argument is the whole number below, and powers up to four to the power of 24
/// have no such neighbours. Every step is rounded to the nearest value, the
/// logarithm too.
pub open spec fn rounding_reach(exponent: nat) -> nat {
    if exponent < 28 {
        0
    } else if exponent == 28 {
        2
    } else if exponent == 29 {
        11
    } else if exponent == 30 {
        45
    } else if exponent == 31 {
        180
    } else if exponent == 32 {
        1424
    } else if exponent == 33 {
        5696
    } else if exponent == 34 {
        22784
    } else {
        91136
    }
}

/// The whole part of the binary logarithm of sixteen times the square root of a
/// number of tokens, in double precision.
pub open spec fn root_exponent(total_tokens: nat) -> nat {
    let exponent = quarterings(256 * total_tokens);
    if total_tokens + rounding_reach(exponent) >= pow2((2 * exponent - 6) as nat) {
        exponent + 1
    } else {
        exponent
    }
}

/// The number of centroids for a number of tokens: the largest power of two that
/// is at most sixteen times the square root of the tokens, in double precision,
/// but no more than there are tokens.
pub open spec fn automatic_centroids(total_tokens: nat) -> nat {
    smaller(pow2(root_exponent(total_tokens)), total_tokens)
}

/// The largest power of two that is at most sixteen times the square root of a
/// number is the one whose square is at most 256 times that number while the
/// square of its double is not.
pub proof fn automatic_centroids_bracket_the_root(value: nat)
    requires
        value > 0,
    ensures
        pow2(quarterings(value)) * pow2(quarterings(value)) <= value,
        value < 4 * (pow2(quarterings(value)) * pow2(quarterings(value))),
    decreases value,
{
    vstd::arithmetic::power2::lemma2_to64();
    if value >= 4 {
        let shorter = value / 4;
        automatic_centroids_bracket_the_root(shorter);
        let small = pow2(quarterings(shorter));
        let root = pow2(quarterings(value));
        vstd::arithmetic::power2::lemma_pow2_unfold(quarterings(value));
        assert(root == 2 * small);
        assert(root * root == 4 * (small * small)) by (nonlinear_arith)
            requires
                root == 2 * small,
        ;
    } else {
        assert(pow2(quarterings(value)) == 1);
        assert(1int * 1 == 1);
    }
}

/// Below four to the power of 25 less two, the largest power of two that is at
/// most sixteen times the square root of the tokens is found exactly.
pub proof fn small_counts_have_exact_centroids(total_tokens: nat)
    requires
        0 < total_tokens < 0x3_ffff_ffff_fffe,
    ensures
        automatic_centroids(total_tokens) == smaller(
            pow2(quarterings(256 * total_tokens)),
            total_tokens,
        ),
{
    let exponent = quarterings(256 * total_tokens);
    automatic_centroids_bracket_the_root(256 * total_tokens);
    vstd::arithmetic::power2::lemma2_to64();
    vstd::arithmetic::power2::lemma2_to64_rest();
    vstd::arithmetic::power2::lemma_pow2_adds(exponent, exponent);
    if exponent >= 29 {
        if exponent > 29 {
            vstd::arithmetic::power2::lemma_pow2_strictly_increases(58, 2 * exponent);
        }
        assert(pow2(58) <= pow2(2 * exponent));
        assert(false);
    }
    at_least_four_quarterings(total_tokens);
    vstd::arithmetic::power2::lemma_pow2_adds((2 * exponent - 6) as nat, 8);
    assert(pow2(8) == 256);
    assert(4 * pow2(2 * exponent) == 4 * (pow2((2 * exponent - 6) as nat) * 64)) by {
        vstd::arithmetic::power2::lemma_pow2_adds((2 * exponent - 6) as nat, 6);
    }
    assert(total_tokens < pow2((2 * exponent - 6) as nat));
}

/// Any number of tokens has four quarterings from the factor alone.
proof fn at_least_four_quarterings(total_tokens: nat)
    requires
        total_tokens > 0,
    ensures
        quarterings(256 * total_tokens) == 4 + quarterings(total_tokens),
{
    assert(256 * total_tokens / 4 == 64 * total_tokens);
    assert(64 * total_tokens / 4 == 16 * total_tokens);
    assert(16 * total_tokens / 4 == 4 * total_tokens);
    assert(4 * total_tokens / 4 == total_tokens);
    assert(quarterings(256 * total_tokens) == 1 + quarterings(64 * total_tokens));
    assert(quarterings(64 * total_tokens) == 1 + quarterings(16 * total_tokens));
    assert(quarterings(16 * total_tokens) == 1 + quarterings(4 * total_tokens));
    assert(quarterings(4 * total_tokens) == 1 + quarterings(total_tokens));
}

/// Executable form of [`rounding_reach`].
fn reach_below(exponent: u64) -> (result: u128)
    ensures
        result == rounding_reach(exponent as nat),
{
    if exponent < 28 {
        0
    } else if exponent == 28 {
        2
    } else if exponent == 29 {
        11
    } else if exponent == 30 {
        45
    } else if exponent == 31 {
        180
    } else if exponent == 32 {
        1424
    } else if exponent == 33 {
        5696
    } else if exponent == 34 {
        22784
    } else {
        91136
    }
}

/// Why no number of centroids can be chosen.
pub open spec fn nothing_to_train() -> Trouble {
    Trouble::InvalidInput("PLAID cannot train on an empty multi-vector column"@)
}

/// Chooses the number of centroids for a number of tokens.
pub fn next_plaid_num_centroids(total_tokens: usize) -> (result: DatabaseResult<usize>)
    ensures
        match result {
            Ok(centroids) => total_tokens > 0 && centroids == automatic_centroids(
                total_tokens as nat,
            ),
            Err(error) => total_tokens == 0 && error@ == nothing_to_train(),
        },
{
    if total_tokens == 0 {
        return Err(
            DatabaseError::invalid_input("PLAID cannot train on an empty multi-vector column"),
        );
    }
    let target: u128 = 256 * (total_tokens as u128);
    let mut rest: u128 = target;
    let mut root: u64 = 1;
    let mut doublings: u64 = 0;
    proof {
        vstd::arithmetic::power2::lemma2_to64();
        assert((root * root) * rest <= target) by (nonlinear_arith)
            requires
                root == 1,
                rest == target,
        ;
    }
    while rest >= 4
        invariant
            target == 256 * total_tokens,
            total_tokens <= u64::MAX,
            rest >= 1,
            root == pow2(doublings as nat),
            root >= 1,
            doublings < root,
            doublings + quarterings(rest as nat) == quarterings(target as nat),
            (root * root) * rest <= target,
        decreases rest,
    {
        proof {
            assert(root < 0x1_0000_0000_0000) by (nonlinear_arith)
                requires
                    (root * root) * rest <= 256 * 0xffff_ffff_ffff_ffff,
                    rest >= 4,
                    root >= 1,
            ;
            vstd::arithmetic::power2::lemma_pow2_unfold((doublings + 1) as nat);
            let doubled: int = 2 * root;
            let quarter: int = (rest / 4) as int;
            assert((doubled * doubled) * quarter <= (root * root) * rest) by (nonlinear_arith)
                requires
                    doubled == 2 * root,
                    0 <= 4 * quarter <= rest,
                    root >= 1,
            ;
        }
        rest = rest / 4;
        root = 2 * root;
        doublings += 1;
    }
    let eighth: u128 = (root / 8) as u128;
    proof {
        assert(root < 0x1_0000_0000_0000) by (nonlinear_arith)
            requires
                (root * root) * rest <= 256 * 0xffff_ffff_ffff_ffff,
                rest >= 1,
                root >= 1,
        ;
        at_least_four_quarterings(total_tokens as nat);
        let few = (doublings - 3) as nat;
        vstd::arithmetic::power2::lemma_pow2_adds(few, 3);
        vstd::arithmetic::power2::lemma_pow2_adds(few, few);
        assert(eighth == pow2(few));
        assert(eighth * eighth <= 0xffff_ffff_ffff_ffff * 0xffff_ffff_ffff_ffff) by (nonlinear_arith)
            requires
                0 <= eighth <= 0xffff_ffff_ffff_ffff,
        ;
    }
    if total_tokens as u128 + reach_below(doublings) >= eighth * eighth {
        proof {
            vstd::arithmetic::power2::lemma_pow2_unfold((doublings + 1) as nat);
        }
        root = 2 * root;
    }
    if root < total_tokens as u64 {
        Ok(root as usize)
    } else {
        Ok(total_tokens)
    }
}

/// The number of centroids that is asked for.
pub open spec fn requested_count(params: PlaidIndexParams, total_tokens: nat) -> nat {
    if params.num_centroids == 0 {
        automatic_centroids(total_tokens)
    } else {
        params.num_centroids as nat
    }
}

/// The number of centroids that is asked for. The tokens are counted only where
/// it is left open.
pub fn requested_centroids(params: &PlaidIndexParams, total_tokens: usize) -> (result:
    DatabaseResult<usize>)
    ensures
        match result {
            Ok(centroids) => (params.num_centroids == 0 ==> total_tokens > 0) && centroids
                == requested_count(*params, total_tokens as nat),
            Err(error) => params.num_centroids == 0 && total_tokens == 0 && error@
                == nothing_to_train(),
        },
{
    if params.num_centroids == 0 {
        next_plaid_num_centroids(total_tokens)
    } else {
        Ok(params.num_centroids)
    }
}

/// How many tokens are sampled for training.
pub fn training_sample_size(requested_centroids: usize, params: &PlaidIndexParams) -> (result:
    DatabaseResult<usize>)
    ensures
        match result {
            Ok(size) => size == requested_centroids * params.sample_rate,
            Err(error) => requested_centroids * params.sample_rate > usize::MAX && error@
                == Trouble::InvalidInput("PLAID training sample size overflow"@),
        },
{
    match requested_centroids.checked_mul(params.sample_rate) {
        Some(size) => Ok(size),
        None => Err(DatabaseError::invalid_input("PLAID training sample size overflow")),
    }
}

/// How many centroids are trained: no more than there are sampled tokens.
pub fn trained_centroids(requested_centroids: usize, training_tokens: usize) -> (result:
    DatabaseResult<usize>)
    ensures
        match result {
            Ok(centroids) => training_tokens > 0 && centroids == smaller(
                requested_centroids as nat,
                training_tokens as nat,
            ),
            Err(error) => training_tokens == 0 && error@ == nothing_to_train(),
        },
{
    if training_tokens == 0 {
        return Err(
            DatabaseError::invalid_input("PLAID cannot train on an empty multi-vector column"),
        );
    }
    if requested_centroids < training_tokens {
        Ok(requested_centroids)
    } else {
        Ok(training_tokens)
    }
}

/// Tokens of documents that are not null.
pub open spec fn token_sum(lengths: Seq<Option<usize>>) -> nat
    decreases lengths.len(),
{
    if lengths.len() == 0 {
        0
    } else {
        token_sum(lengths.drop_last()) + match lengths.last() {
            Some(length) => length as nat,
            None => 0,
        }
    }
}

proof fn token_sum_grows(lengths: Seq<Option<usize>>, count: int)
    requires
        0 <= count <= lengths.len(),
    ensures
        token_sum(lengths.take(count)) <= token_sum(lengths),
    decreases lengths.len() - count,
{
    if count == lengths.len() {
        assert(lengths.take(count) =~= lengths);
    } else {
        token_sum_grows(lengths, count + 1);
        assert(lengths.take(count + 1).drop_last() =~= lengths.take(count));
    }
}

/// Adds the tokens of a batch of documents to a count. A null document has no
/// length.
pub fn count_plaid_tokens(counted: usize, lengths: &[Option<usize>]) -> (result: DatabaseResult<
    usize,
>)
    ensures
        match result {
            Ok(total) => total == counted + token_sum(lengths@),
            Err(error) => counted + token_sum(lengths@) > usize::MAX && error@
                == Trouble::InvalidInput("PLAID token count overflow"@),
        },
{
    let mut total: usize = counted;
    let mut i: usize = 0;
    assert(lengths@.take(0) =~= Seq::<Option<usize>>::empty());
    while i < lengths.len()
        invariant
            i <= lengths@.len(),
            total == counted + token_sum(lengths@.take(i as int)),
        decreases lengths@.len() - i,
    {
        assert(lengths@.take(i + 1).drop_last() =~= lengths@.take(i as int));
        if let Some(length) = lengths[i] {
            total =
            match total.checked_add(length) {
                Some(sum) => sum,
                None => {
                    proof {
                        token_sum_grows(lengths@, i + 1);
                    }
                    return Err(DatabaseError::invalid_input("PLAID token count overflow"));
                },
            };
        }
        i += 1;
    }
    assert(lengths@.take(i as int) =~= lengths@);
    Ok(total)
}

/// Why a token vector is refused.
pub open spec fn token_trouble(token: Seq<u32>) -> Option<Trouble> {
    if token.len() == 0 || !all_finite(token) {
        Some(Trouble::InvalidInput("PLAID token vectors must be non-empty and finite"@))
    } else {
        None
    }
}

/// Checks a token vector.
pub fn validate_token(token: &[u32]) -> (result: DatabaseResult<()>)
    ensures
        match result {
            Ok(()) => token_trouble(token@) is None,
            Err(error) => token_trouble(token@) == Some(error@),
        },
{
    if token.len() == 0 || !scalar::all_finite(token) {
        return Err(
            DatabaseError::invalid_input("PLAID token vectors must be non-empty and finite"),
        );
    }
    Ok(())
}

/// Why a token of a document is refused.
pub open spec fn document_token_trouble(token: Option<Seq<u32>>) -> Option<Trouble> {
    match token {
        None => Some(Trouble::InvalidInput("PLAID does not support null token vectors"@)),
        Some(token) => token_trouble(token),
    }
}

/// The values of a token that a document holds, where it is not null.
pub open spec fn token_values(token: Option<&[u32]>) -> Option<Seq<u32>> {
    match token {
        Some(token) => Some(token@),
        None => None,
    }
}

/// Checks a token of a document, which may be null.
pub fn checked_token<'a>(token: Option<&'a [u32]>) -> (result: DatabaseResult<&'a [u32]>)
    ensures
        match result {
            Ok(values) => document_token_trouble(token_values(token)) is None && token == Some(
                values,
            ),
            Err(error) => document_token_trouble(token_values(token)) == Some(error@),
        },
{
    match token {
        None => Err(DatabaseError::invalid_input("PLAID does not support null token vectors")),
        Some(values) => {
            validate_token(values)?;
            Ok(values)
        },
    }
}

/// Bit pattern of the smallest norm that counts as zero, ten to the power of
/// minus twelve.
pub const ZERO_NORM: u32 = 0x2b8c_bccc;

/// Checks the norm of a token vector that is to be normalized.
pub fn check_norm(norm: u32) -> (result: DatabaseResult<()>)
    ensures
        match result {
            Ok(()) => !scalar::at_least(ZERO_NORM, norm),
            Err(error) => scalar::at_least(ZERO_NORM, norm) && error@ == Trouble::InvalidInput(
                "PLAID token vectors must have non-zero norm"@,
            ),
        },
        norm < 0x8000_0000 ==> (result is Ok <==> norm > 0x2b8c_bccc),
{
    if scalar::is_at_least(ZERO_NORM, norm) {
        return Err(DatabaseError::invalid_input("PLAID token vectors must have non-zero norm"));
    }
    Ok(())
}

/// Values with a run of them replaced.
pub open spec fn overwritten(values: Seq<u32>, start: int, run: Seq<u32>) -> Seq<u32> {
    values.subrange(0, start) + run + values.subrange(start + run.len(), values.len() as int)
}

/// A uniform sample of the tokens of a column.
pub struct TokenSample {
    sampled: Vec<u32>,
    seen: usize,
    sample_size: usize,
    dimension: usize,
}

/// A sample as a mathematical object.
#[verifier::ext_equal]
pub struct Sample {
    /// The sampled tokens, one after the other.
    pub values: Seq<u32>,
    /// Tokens that were offered.
    pub seen: nat,
    pub size: nat,
    pub dimension: nat,
}

impl View for TokenSample {
    type V = Sample;

    closed spec fn view(&self) -> Sample {
        Sample {
            values: self.sampled@,
            seen: self.seen as nat,
            size: self.sample_size as nat,
            dimension: self.dimension as nat,
        }
    }
}

impl Sample {
    /// As many tokens as were offered, up to the size of the sample.
    pub open spec fn wf(self) -> bool {
        self.values.len() == smaller(self.seen, self.size) * self.dimension
    }

    /// The values once a token is offered with a place that was drawn for it.
    pub open spec fn values_with(self, token: Seq<u32>, place: nat) -> Seq<u32> {
        if self.seen < self.size {
            self.values + token
        } else if place < self.size {
            overwritten(self.values, (place * self.dimension) as int, token)
        } else {
            self.values
        }
    }
}

/// The values of the tokens of a document, as far as they are not null.
pub open spec fn document_tokens(tokens: Seq<Option<Vec<u32>>>) -> Seq<Option<Seq<u32>>> {
    tokens.map_values(
        |token: Option<Vec<u32>>|
            match token {
                Some(token) => Some(token@),
                None => None,
            },
    )
}

/// The first trouble of offering the tokens of a document after some others.
pub open spec fn offer_trouble(tokens: Seq<Option<Seq<u32>>>, seen: nat) -> Option<Trouble>
    decreases tokens.len(),
{
    if tokens.len() == 0 {
        None
    } else {
        match offer_trouble(tokens.drop_last(), seen) {
            Some(trouble) => Some(trouble),
            None => match document_token_trouble(tokens.last()) {
                Some(trouble) => Some(trouble),
                None => if seen + tokens.len() > usize::MAX {
                    Some(Trouble::InvalidInput("PLAID token count overflow"@))
                } else {
                    None
                },
            },
        }
    }
}

/// A sample after tokens were offered, each with a place that was drawn for it.
pub open spec fn sampled_after(
    sample: Sample,
    tokens: Seq<Option<Seq<u32>>>,
    places: Seq<nat>,
) -> Sample
    decreases tokens.len(),
{
    if tokens.len() == 0 {
        sample
    } else {
        let earlier = sampled_after(sample, tokens.drop_last(), places);
        Sample {
            values: earlier.values_with(tokens.last()->0, places[tokens.len() - 1]),
            seen: earlier.seen + 1,
            ..earlier
        }
    }
}

/// Places are drawn among the tokens that were offered so far.
pub open spec fn places_drawn(places: Seq<nat>, count: nat, seen: nat) -> bool {
    &&& places.len() == count
    &&& forall|i: int| 0 <= i < count ==> #[trigger] places[i] <= seen + i
}

/// A sample depends on no more places than it has tokens.
proof fn sample_depends_on_places(
    sample: Sample,
    tokens: Seq<Option<Seq<u32>>>,
    places: Seq<nat>,
    more: Seq<nat>,
)
    requires
        tokens.len() <= places.len(),
        tokens.len() <= more.len(),
        forall|i: int| 0 <= i < tokens.len() ==> places[i] == #[trigger] more[i],
    ensures
        sampled_after(sample, tokens, places) == sampled_after(sample, tokens, more),
    decreases tokens.len(),
{
    if tokens.len() > 0 {
        sample_depends_on_places(sample, tokens.drop_last(), places, more);
        assert(places[tokens.len() - 1] == more[tokens.len() - 1]);
    }
}

/// Trouble with the first tokens of a document is trouble with all of it.
proof fn earlier_trouble_stays(tokens: Seq<Option<Seq<u32>>>, count: nat, seen: nat)
    requires
        count <= tokens.len(),
        offer_trouble(tokens.take(count as int), seen) is Some,
    ensures
        offer_trouble(tokens, seen) == offer_trouble(tokens.take(count as int), seen),
    decreases tokens.len() - count,
{
    if count < tokens.len() {
        assert(tokens.take((count + 1) as int).drop_last() =~= tokens.take(count as int));
        earlier_trouble_stays(tokens, count + 1, seen);
    } else {
        assert(tokens.take(count as int) =~= tokens);
    }
}

/// Tokens that were sampled are tokens that were offered: a place of the sample
/// holds the offered token or what it held before.
pub proof fn samples_hold_offered_tokens(sample: Sample, token: Seq<u32>, place: nat, slot: nat)
    requires
        sample.wf(),
        sample.size > 0,
        token.len() == sample.dimension,
        slot < smaller(sample.seen + 1, sample.size),
    ensures
        ({
            let start = (slot * sample.dimension) as int;
            let end = start + sample.dimension;
            let held = sample.values_with(token, place).subrange(start, end);
            ||| held == token
            ||| slot < smaller(sample.seen, sample.size) && held == sample.values.subrange(
                start,
                end,
            )
        }),
{
    let after = sample.values_with(token, place);
    let dimension = sample.dimension as int;
    let start = slot * dimension;
    let end = start + dimension;
    let held = smaller(sample.seen, sample.size) as int;
    if slot < held {
        assert(end <= held * dimension) by (nonlinear_arith)
            requires
                slot < held,
                start == slot * dimension,
                end == start + dimension,
                dimension >= 0,
        ;
    } else {
        assert(slot == held);
    }
    if sample.seen < sample.size {
        if slot < held {
            assert(after.subrange(start, end) =~= sample.values.subrange(start, end));
        } else {
            assert(after.subrange(start, end) =~= token);
        }
    } else if place < sample.size {
        let other = place * dimension;
        assert(0 <= other && other + dimension <= held * dimension) by (nonlinear_arith)
            requires
                place < held,
                other == place * dimension,
                dimension >= 0,
        ;
        if place == slot {
            assert(after.subrange(start, end) =~= token);
        } else if slot < place {
            assert(end <= other) by (nonlinear_arith)
                requires
                    slot < place,
                    start == slot * dimension,
                    end == start + dimension,
                    other == place * dimension,
                    dimension >= 0,
            ;
            assert(after.subrange(start, end) =~= sample.values.subrange(start, end));
        } else {
            assert(other + dimension <= start) by (nonlinear_arith)
                requires
                    place < slot,
                    start == slot * dimension,
                    other == place * dimension,
                    dimension >= 0,
            ;
            assert(after.subrange(start, end) =~= sample.values.subrange(start, end));
        }
    }
}

impl TokenSample {
    /// An empty sample, and the generator that draws for it.
    pub fn new(sample_size: usize, dimension: usize, seed: u64) -> (result: DatabaseResult<
        (TokenSample, SmallRng),
    >)
        ensures
            match result {
                Ok((sample, rng)) => smaller(sample_size as nat, 4096) * dimension <= usize::MAX
                    && sample@.wf() && sample@ == (Sample {
                    values: Seq::empty(),
                    seen: 0,
                    size: sample_size as nat,
                    dimension: dimension as nat,
                }),
                Err(error) => smaller(sample_size as nat, 4096) * dimension > usize::MAX && error@
                    == Trouble::InvalidInput("PLAID sample capacity overflow"@),
            },
    {
        let initial: usize = if sample_size < 4096 {
            sample_size
        } else {
            4096
        };
        let capacity: usize = match initial.checked_mul(dimension) {
            Some(capacity) => capacity,
            None => {
                return Err(DatabaseError::invalid_input("PLAID sample capacity overflow"));
            },
        };
        let sampled: Vec<u32> = Vec::with_capacity(capacity);
        proof {
            assert(0 * (dimension as int) == 0);
            assert(sampled@ =~= Seq::<u32>::empty());
        }
        let sample = TokenSample { sampled, seen: 0, sample_size, dimension };
        Ok((sample, seed_from_u64(seed)))
    }

    /// The last place that may be drawn for the next token: any place among the
    /// tokens that were offered, its own included. A sample that is not full takes
    /// every token, and nothing is drawn.
    pub fn draw_bound(&self) -> (result: Option<usize>)
        ensures
            result == if self@.seen < self@.size {
                None
            } else {
                Some(self@.seen as usize)
            },
    {
        if self.seen < self.sample_size {
            None
        } else {
            Some(self.seen)
        }
    }

    /// Offers a token, which may be null, and draws a place for it where the
    /// sample is full.
    pub fn offer(&mut self, token: Option<&[u32]>, rng: &mut SmallRng) -> (result: DatabaseResult<()>)
        requires
            old(self)@.wf(),
            token is Some ==> (token->0)@.len() == old(self)@.dimension,
        ensures
            final(self)@.wf(),
            match result {
                Ok(()) => {
                    &&& document_token_trouble(token_values(token)) is None
                    &&& final(self)@.seen == old(self)@.seen + 1
                    &&& final(self)@.size == old(self)@.size
                    &&& final(self)@.dimension == old(self)@.dimension
                    &&& exists|place: nat|
                        place <= old(self)@.seen && final(self)@.values == #[trigger] old(
                            self,
                        )@.values_with((token->0)@, place)
                },
                Err(error) => final(self)@ == old(self)@ && if document_token_trouble(
                    token_values(token),
                ) is Some {
                    document_token_trouble(token_values(token)) == Some(error@)
                } else {
                    old(self)@.seen == usize::MAX && error@ == Trouble::InvalidInput(
                        "PLAID token count overflow"@,
                    )
                },
            },
    {
        let values = checked_token(token)?;
        let place: usize = match self.draw_bound() {
            None => 0,
            Some(last) => random_up_to(rng, last),
        };
        self.place(values, place)
    }

    /// Offers the tokens of a document one after the other, up to the first that is
    /// refused. A null document has none, and is passed over.
    pub fn offer_document(
        &mut self,
        document: Option<&Vec<Option<Vec<u32>>>>,
        rng: &mut SmallRng,
    ) -> (result: DatabaseResult<()>)
        requires
            old(self)@.wf(),
            document is Some ==> forall|i: int|
                0 <= i < (document->0)@.len() ==> (#[trigger] (document->0)@[i] is Some
                    ==> (document->0)@[i]->0@.len() == old(self)@.dimension),
        ensures
            final(self)@.wf(),
            match document {
                None => result is Ok && final(self)@ == old(self)@,
                Some(tokens) => {
                    let tokens = document_tokens(tokens@);
                    match result {
                        Ok(()) => {
                            &&& offer_trouble(tokens, old(self)@.seen) is None
                            &&& exists|places: Seq<nat>|
                                places_drawn(places, tokens.len(), old(self)@.seen) && final(self)@
                                    == #[trigger] sampled_after(old(self)@, tokens, places)
                        },
                        Err(error) => {
                            &&& offer_trouble(tokens, old(self)@.seen) == Some(error@)
                            &&& exists|count: int, places: Seq<nat>|
                                0 <= count < tokens.len() && offer_trouble(
                                    tokens.take(count),
                                    old(self)@.seen,
                                ) is None && offer_trouble(tokens.take(count + 1), old(self)@.seen)
                                    is Some && places_drawn(places, count as nat, old(self)@.seen)
                                    && final(self)@ == #[trigger] sampled_after(
                                    old(self)@,
                                    tokens.take(count),
                                    places,
                                )
                        },
                    }
                },
            },
    {
        let tokens = match document {
            Some(tokens) => tokens,
            None => {
                return Ok(());
            },
        };
        let ghost before = self@;
        let ghost all = document_tokens(tokens@);
        let ghost mut places: Seq<nat> = Seq::empty();
        let mut i: usize = 0;
        assert(all.take(0) =~= Seq::<Option<Seq<u32>>>::empty());
        while i < tokens.len()
            invariant
                i <= tokens@.len(),
                all == document_tokens(tokens@),
                document == Some(tokens),
                before == old(self)@,
                self@.wf(),
                self@.seen == before.seen + i,
                self@.dimension == before.dimension,
                forall|j: int|
                    0 <= j < tokens@.len() ==> (#[trigger] tokens@[j] is Some
                        ==> tokens@[j]->0@.len() == before.dimension),
                offer_trouble(all.take(i as int), before.seen) is None,
                places_drawn(places, i as nat, before.seen),
                self@ == sampled_after(before, all.take(i as int), places),
            decreases tokens@.len() - i,
        {
            let token: Option<&[u32]> = match &tokens[i] {
                Some(token) => Some(token.as_slice()),
                None => None,
            };
            let ghost earlier = self@;
            let ghost next = all.take(i + 1);
            proof {
                assert(tokens@[i as int] is Some ==> tokens@[i as int]->0@.len()
                    == before.dimension);
                assert(next.drop_last() =~= all.take(i as int));
                assert(next.last() == token_values(token));
                assert(earlier.seen <= usize::MAX) by {
                    assert(self.seen <= usize::MAX);
                }
            }
            match self.offer(token, rng) {
                Ok(()) => {},
                Err(error) => {
                    proof {
                        earlier_trouble_stays(all, (i + 1) as nat, before.seen);
                    }
                    return Err(error);
                },
            }
            proof {
                let place = choose|place: nat|
                    place <= earlier.seen && self@.values == #[trigger] earlier.values_with(
                        (token->0)@,
                        place,
                    );
                let longer = places.push(place);
                sample_depends_on_places(before, all.take(i as int), places, longer);
                assert(self@ =~= sampled_after(before, next, longer));
                places = longer;
            }
            i += 1;
        }
        assert(all.take(i as int) =~= all);
        Ok(())
    }

    /// Takes in a token at the place that was drawn for it. A sample that is not
    /// full takes every token.
    pub fn place(&mut self, token: &[u32], place: usize) -> (result: DatabaseResult<()>)
        requires
            old(self)@.wf(),
            token@.len() == old(self)@.dimension,
        ensures
            final(self)@.wf(),
            match result {
                Ok(()) => old(self)@.seen < usize::MAX && final(self)@ == (Sample {
                    values: old(self)@.values_with(token@, place as nat),
                    seen: old(self)@.seen + 1,
                    ..old(self)@
                }),
                Err(error) => old(self)@.seen == usize::MAX && final(self)@ == old(self)@ && error@
                    == Trouble::InvalidInput("PLAID token count overflow"@),
            },
    {
        let seen: usize = match self.seen.checked_add(1) {
            Some(seen) => seen,
            None => {
                return Err(DatabaseError::invalid_input("PLAID token count overflow"));
            },
        };
        let dimension: usize = self.dimension;
        let ghost before = self@;
        if self.seen < self.sample_size {
            proof {
                assert((before.seen + 1) * dimension == before.seen * dimension + dimension)
                    by (nonlinear_arith);
            }
            self.sampled.extend_from_slice(token);
            assert(self.sampled@ =~= before.values + token@);
        } else if place < self.sample_size {
            assert(self.sampled@.len() == self.sampled.len());
            proof {
                let size = self.sample_size;
                assert(place * dimension + dimension <= size * dimension && 0 <= place
                    * dimension) by (nonlinear_arith)
                    requires
                        place < size,
                ;
            }
            overwrite(&mut self.sampled, place * dimension, token);
        }
        self.seen = seen;
        Ok(())
    }

    /// Number of sampled tokens.
    pub fn len(&self) -> (result: usize)
        ensures
            result == smaller(self@.seen, self@.size),
    {
        if self.seen < self.sample_size {
            self.seen
        } else {
            self.sample_size
        }
    }

    /// The sampled tokens, one after the other.
    pub fn values(&self) -> (result: &Vec<u32>)
        ensures
            result@ == self@.values,
    {
        &self.sampled
    }
}

fn overwrite(values: &mut Vec<u32>, start: usize, run: &[u32])
    requires
        start + run@.len() <= old(values)@.len(),
    ensures
        final(values)@ == overwritten(old(values)@, start as int, run@),
{
    let ghost before = values@;
    assert(values@.len() == values.len());
    let mut i: usize = 0;
    while i < run.len()
        invariant
            i <= run@.len(),
            start + run@.len() <= before.len() <= usize::MAX,
            before.len() == values@.len(),
            forall|k: int| 0 <= k < start ==> values@[k] == before[k],
            forall|k: int| 0 <= k < i ==> values@[start + k] == run@[k],
            forall|k: int| start + i <= k < before.len() ==> values@[k] == before[k],
        decreases run@.len() - i,
    {
        values[start + i] = run[i];
        i += 1;
    }
    assert(values@ =~= overwritten(before, start as int, run@)) by {
        let wanted = overwritten(before, start as int, run@);
        assert forall|k: int| 0 <= k < wanted.len() implies values@[k] == wanted[k] by {
            if start <= k < start + run@.len() {
                assert(values@[start + (k - start)] == run@[k - start]);
            }
        }
    }
}

/// One value of a residual: what is subtracted from what.
#[derive(Clone, Copy, Debug, PartialEq, Eq, Structural)]
pub struct ResidualTerm {
    pub value: u32,
    pub centroid: u32,
}

/// A token set against its centroid, dimension by dimension.
pub open spec fn residual_terms(token: Seq<u32>, centroid: Seq<u32>) -> Seq<ResidualTerm> {
    Seq::new(
        token.len(),
        |i: int| ResidualTerm { value: token[i], centroid: centroid[i] },
    )
}

/// Appends the residual of a token as it was pooled: its norm may be below one
/// while that of the centroid is one.
pub fn append_raw_residual(token: &[u32], centroid: &[u32], output: &mut Vec<ResidualTerm>) -> (result:
    DatabaseResult<()>)
    ensures
        match result {
            Ok(()) => token@.len() == centroid@.len() && final(output)@ == old(output)@
                + residual_terms(token@, centroid@),
            Err(error) => token@.len() != centroid@.len() && final(output)@ == old(output)@
                && error@ == Trouble::Internal(
                "PLAID token dimension "@ + decimal(token@.len())
                    + " differs from centroid dimension "@ + decimal(centroid@.len()),
            ),
        },
{
    if token.len() != centroid.len() {
        return Err(
            DatabaseError::Internal(
                text_two_numbers(
                    "PLAID token dimension ",
                    token.len() as u64,
                    " differs from centroid dimension ",
                    centroid.len() as u64,
                ),
            ),
        );
    }
    let ghost start = output@;
    let mut i: usize = 0;
    while i < token.len()
        invariant
            i <= token@.len(),
            token@.len() == centroid@.len(),
            output@ =~= start + residual_terms(token@, centroid@).take(i as int),
        decreases token@.len() - i,
    {
        output.push(ResidualTerm { value: token[i], centroid: centroid[i] });
        i += 1;
    }
    assert(residual_terms(token@, centroid@).take(i as int) =~= residual_terms(token@, centroid@));
    Ok(())
}

/// The best of some scores stands at a place: no score is better, and every
/// earlier one is worse.
pub open spec fn best_score_at(scores: Seq<u32>, place: int) -> bool {
    &&& 0 <= place < scores.len()
    &&& forall|i: int|
        0 <= i < scores.len() ==> scalar::total_position(#[trigger] scores[i])
            <= scalar::total_position(scores[place])
    &&& forall|i: int|
        0 <= i < place ==> scalar::total_position(#[trigger] scores[i]) < scalar::total_position(
            scores[place],
        )
}

/// The centroid with the best score, the first one where several are best.
pub fn nearest_centroid(scores: &[u32]) -> (result: usize)
    ensures
        if scores@.len() == 0 {
            result == 0
        } else {
            best_score_at(scores@, result as int)
        },
{
    let mut best: usize = 0;
    let mut i: usize = 1;
    while i < scores.len()
        invariant
            i >= 1,
            scores@.len() == 0 ==> best == 0,
            scores@.len() > 0 ==> best < i && best < scores@.len(),
            forall|j: int|
                0 <= j < i && j < scores@.len() ==> scalar::total_position(#[trigger] scores@[j])
                    <= scalar::total_position(scores@[best as int]),
            forall|j: int|
                0 <= j < best ==> scalar::total_position(#[trigger] scores@[j])
                    < scalar::total_position(scores@[best as int]),
        decreases scores@.len() - i,
    {
        if scalar::to_total_position(scores[i]) > scalar::to_total_position(scores[best]) {
            best = i;
        }
        i += 1;
    }
    best
}

/// A single-precision value under the total order.
#[derive(Clone, Copy, Debug)]
pub struct OrderedValue {
    pub bits: u32,
}

impl TotalOrder for OrderedValue {
    open spec fn before(self, other: Self) -> bool {
        scalar::total_position(self.bits) <= scalar::total_position(other.bits)
    }

    proof fn before_is_total_order() {
        let relation = |left: Self, right: Self| left.before(right);
        assert forall|left: Self, right: Self|
            left.before(right) && right.before(left) implies left == right by {
            scalar::total_position_is_injective(left.bits, right.bits);
        }
        assert(reflexive(relation));
        assert(antisymmetric(relation));
        assert(transitive(relation));
        assert(strongly_connected(relation));
    }

    fn is_before(&self, other: &Self) -> (result: bool) {
        scalar::to_total_position(self.bits) <= scalar::to_total_position(other.bits)
    }
}

/// The values of a sequence in the total order.
pub open spec fn in_total_order(values: Seq<u32>) -> Seq<u32> {
    ascending(values.map_values(|bits: u32| OrderedValue { bits })).map_values(
        |value: OrderedValue| value.bits,
    )
}

/// Values in the total order are the same values, none before a smaller one.
pub proof fn total_order_sorts(values: Seq<u32>)
    ensures
        in_total_order(values).len() == values.len(),
        forall|value: u32| #[trigger]
            in_total_order(values).contains(value) <==> values.contains(value),
        forall|i: int, j: int|
            0 <= i < j < values.len() ==> scalar::total_position(#[trigger] in_total_order(values)[i])
                <= scalar::total_position(#[trigger] in_total_order(values)[j]),
{
    let wrapped = values.map_values(|bits: u32| OrderedValue { bits });
    ascending_is_sorted_permutation(wrapped);
    let sorted = ascending(wrapped);
    let result = in_total_order(values);
    assert forall|value: u32| #[trigger] result.contains(value) <==> values.contains(value) by {
        let own = OrderedValue { bits: value };
        if result.contains(value) {
            let i = choose|i: int| 0 <= i < result.len() && result[i] == value;
            assert(sorted[i] == own);
            assert(sorted.contains(own));
            assert(wrapped.contains(own));
            let k = choose|k: int| 0 <= k < wrapped.len() && wrapped[k] == own;
            assert(values[k] == value);
        }
        if values.contains(value) {
            let k = choose|k: int| 0 <= k < values.len() && values[k] == value;
            assert(wrapped[k] == own);
            assert(wrapped.contains(own));
            assert(sorted.contains(own));
            let i = choose|i: int| 0 <= i < sorted.len() && sorted[i] == own;
            assert(result[i] == value);
        }
    }
    assert forall|i: int, j: int| 0 <= i < j < values.len() implies scalar::total_position(
        #[trigger] result[i],
    ) <= scalar::total_position(#[trigger] result[j]) by {
        assert(sorted[i].before(sorted[j]));
    }
}

/// A quantile: it lies between two values, this many parts of the way from the
/// lower to the upper one.
#[derive(Clone, Copy, Debug, PartialEq, Eq, Structural)]
pub struct QuantileTerms {
    pub lower: u32,
    pub upper: u32,
    pub parts: u64,
    pub of_parts: u64,
}

/// The quantile of some values at a fraction.
pub open spec fn quantile_terms(values: Seq<u32>, numerator: nat, denominator: nat) -> Option<
    QuantileTerms,
> {
    if values.len() == 0 {
        None
    } else {
        let sorted = in_total_order(values);
        let position = numerator * (values.len() - 1) as nat;
        let lower = position / denominator;
        let parts = position % denominator;
        Some(
            QuantileTerms {
                lower: sorted[lower as int],
                upper: if parts == 0 {
                    sorted[lower as int]
                } else {
                    sorted[lower as int + 1]
                },
                parts: parts as u64,
                of_parts: denominator as u64,
            },
        )
    }
}

/// The quantile of some values at a fraction. No values have no quantile.
pub fn quantile(values: &[u32], numerator: u32, denominator: u32) -> (result: Option<QuantileTerms>)
    requires
        0 < denominator,
        numerator <= denominator,
    ensures
        result == quantile_terms(values@, numerator as nat, denominator as nat),
{
    if values.len() == 0 {
        return None;
    }
    let mut wrapped: Vec<OrderedValue> = Vec::new();
    let mut i: usize = 0;
    while i < values.len()
        invariant
            i <= values@.len(),
            wrapped@ =~= values@.take(i as int).map_values(|bits: u32| OrderedValue { bits }),
        decreases values@.len() - i,
    {
        wrapped.push(OrderedValue { bits: values[i] });
        i += 1;
    }
    assert(values@.take(i as int) =~= values@);
    let sorted = sort(&wrapped);
    proof {
        ascending_is_sorted_permutation(wrapped@);
    }
    let last: u128 = (values.len() - 1) as u128;
    proof {
        assert(numerator * last <= u128::MAX) by (nonlinear_arith)
            requires
                numerator <= u32::MAX,
                last <= u64::MAX,
        ;
    }
    let position: u128 = numerator as u128 * last;
    let lower: u128 = position / denominator as u128;
    let parts: u128 = position % denominator as u128;
    proof {
        assert(lower <= last && (parts != 0 ==> lower < last)) by (nonlinear_arith)
            requires
                position == numerator * last,
                numerator <= denominator,
                0 < denominator,
                lower == position / (denominator as u128),
                parts == position % (denominator as u128),
        ;
    }
    let below: u32 = sorted[lower as usize].bits;
    let above: u32 = if parts == 0 {
        below
    } else {
        sorted[lower as usize + 1].bits
    };
    Some(
        QuantileTerms {
            lower: below,
            upper: above,
            parts: parts as u64,
            of_parts: denominator as u64,
        },
    )
}

/// Quantiles between the buckets: one less than there are buckets.
pub open spec fn cutoff_quantiles(values: Seq<u32>, buckets: nat) -> Seq<Option<QuantileTerms>> {
    Seq::new((buckets - 1) as nat, |i: int| quantile_terms(values, (i + 1) as nat, buckets))
}

/// Quantiles in the middle of the buckets.
pub open spec fn weight_quantiles(values: Seq<u32>, buckets: nat) -> Seq<Option<QuantileTerms>> {
    Seq::new(buckets, |i: int| quantile_terms(values, (2 * i + 1) as nat, 2 * buckets))
}

/// Where the buckets of a quantizer are divided and what they stand for, from
/// the residuals of the sampled tokens.
pub fn bucket_quantiles(residuals: &[u32], nbits: u8) -> (result: (
    Vec<Option<QuantileTerms>>,
    Vec<Option<QuantileTerms>>,
))
    requires
        nbits == 2 || nbits == 4,
    ensures
        result.1@.len() == if nbits == 2 {
            4int
        } else {
            16int
        },
        result.0@.len() == result.1@.len() - 1,
        result.0@ == cutoff_quantiles(residuals@, bucket_count(nbits)),
        result.1@ == weight_quantiles(residuals@, bucket_count(nbits)),
{
    let buckets: u32 = if nbits == 2 {
        4
    } else {
        16
    };
    let mut cutoffs: Vec<Option<QuantileTerms>> = Vec::new();
    let mut weights: Vec<Option<QuantileTerms>> = Vec::new();
    let mut bucket: u32 = 0;
    while bucket < buckets
        invariant
            4 <= buckets <= 16,
            bucket <= buckets,
            weights@ =~= weight_quantiles(residuals@, buckets as nat).take(bucket as int),
            bucket == 0 ==> cutoffs@.len() == 0,
            bucket > 0 ==> cutoffs@ =~= cutoff_quantiles(residuals@, buckets as nat).take(
                bucket - 1,
            ),
        decreases buckets - bucket,
    {
        if bucket > 0 {
            cutoffs.push(quantile(residuals, bucket, buckets));
        }
        weights.push(quantile(residuals, 2 * bucket + 1, 2 * buckets));
        bucket += 1;
    }
    assert(cutoffs@ =~= cutoff_quantiles(residuals@, buckets as nat));
    assert(weights@ =~= weight_quantiles(residuals@, buckets as nat));
    (cutoffs, weights)
}

/// Checks that a batch has one address for each document.
pub fn check_batch(row_addresses: usize, documents: usize) -> (result: DatabaseResult<()>)
    ensures
        match result {
            Ok(()) => row_addresses == documents,
            Err(error) => row_addresses != documents && error@ == Trouble::Internal(
                "PLAID row-address count "@ + decimal(row_addresses as nat)
                    + " differs from document count "@ + decimal(documents as nat),
            ),
        },
{
    if row_addresses != documents {
        return Err(
            DatabaseError::Internal(
                text_two_numbers(
                    "PLAID row-address count ",
                    row_addresses as u64,
                    " differs from document count ",
                    documents as u64,
                ),
            ),
        );
    }
    Ok(())
}

/// Encoded documents as a mathematical object.
#[verifier::ext_equal]
pub struct Encoded {
    pub row_addresses: Seq<u64>,
    pub document_offsets: Seq<u64>,
    pub token_codes: Seq<u32>,
    pub packed_residuals: Seq<u8>,
}

impl Encoded {
    /// The parts fit together, for a codebook, a dimension and a number of
    /// centroids.
    pub open spec fn wf(self, book: Codebook, dimension: nat, centroids: nat) -> bool {
        &&& addresses_increase(self.row_addresses)
        &&& divides(self.document_offsets, self.row_addresses.len(), self.token_codes.len())
        &&& all_below(self.token_codes, centroids)
        &&& self.packed_residuals.len() == self.token_codes.len() * book.packed_len(dimension)
    }

    /// The segment of the documents.
    pub open spec fn segment(self, centroids: Grid, book: Codebook) -> Segment {
        built_segment(
            centroids,
            book,
            self.row_addresses,
            self.document_offsets,
            self.token_codes,
            self.packed_residuals,
            None,
        )
    }
}

/// Documents that are being encoded.
#[derive(Debug)]
pub struct DocumentEncoder {
    dimension: usize,
    num_centroids: usize,
    quantizer: ResidualQuantizer,
    row_addresses: Vec<u64>,
    document_offsets: Vec<u64>,
    token_codes: Vec<u32>,
    packed_residuals: Vec<u8>,
}

impl View for DocumentEncoder {
    type V = Encoded;

    closed spec fn view(&self) -> Encoded {
        Encoded {
            row_addresses: self.row_addresses@,
            document_offsets: self.document_offsets@,
            token_codes: self.token_codes@,
            packed_residuals: self.packed_residuals@,
        }
    }
}

/// The trouble of an address that does not follow the earlier ones.
pub open spec fn address_trouble(addresses: Seq<u64>, address: u64) -> Option<Trouble> {
    if addresses.len() > 0 && addresses.last() >= address {
        Some(Trouble::Index("PLAID build requires strictly increasing physical row addresses"@))
    } else {
        None
    }
}

impl DocumentEncoder {
    /// The encoded documents fit together.
    pub closed spec fn wf(self) -> bool {
        &&& self.quantizer@.packing_fault(self.dimension as nat) is None
        &&& self@.wf(self.quantizer@, self.dimension as nat, self.num_centroids as nat)
    }

    /// The codebook that residuals are quantized with.
    pub closed spec fn book(&self) -> Codebook {
        self.quantizer@
    }

    /// The dimension of the tokens.
    pub closed spec fn dimension(&self) -> nat {
        self.dimension as nat
    }

    /// Number of centroids that a token can be assigned to.
    pub closed spec fn centroids(&self) -> nat {
        self.num_centroids as nat
    }

    /// Starts without documents.
    pub fn new(dimension: usize, num_centroids: usize, quantizer: ResidualQuantizer) -> (result:
        DocumentEncoder)
        requires
            quantizer@.packing_fault(dimension as nat) is None,
        ensures
            result.wf(),
            result@ == (Encoded {
                row_addresses: Seq::empty(),
                document_offsets: seq![0u64],
                token_codes: Seq::empty(),
                packed_residuals: Seq::empty(),
            }),
            result.book() == quantizer@,
            result.dimension() == dimension,
            result.centroids() == num_centroids,
    {
        let mut document_offsets: Vec<u64> = Vec::new();
        document_offsets.push(0);
        let row_addresses: Vec<u64> = Vec::new();
        let token_codes: Vec<u32> = Vec::new();
        let packed_residuals: Vec<u8> = Vec::new();
        proof {
            let length = quantizer@.packed_len(dimension as nat);
            assert(0 * length == 0) by (nonlinear_arith);
            assert(document_offsets@ =~= seq![0u64]);
            assert(row_addresses@ =~= Seq::<u64>::empty());
            assert(token_codes@ =~= Seq::<u32>::empty());
            assert(packed_residuals@ =~= Seq::<u8>::empty());
        }
        DocumentEncoder {
            dimension,
            num_centroids,
            quantizer,
            row_addresses,
            document_offsets,
            token_codes,
            packed_residuals,
        }
    }

    /// Whether a document is encoded: null documents are passed over, wherever they
    /// lie, and others have to follow the earlier ones.
    pub fn start_document(&self, row_address: u64, is_null: bool) -> (result: DatabaseResult<bool>)
        ensures
            match result {
                Ok(encoded) => encoded == !is_null && (encoded ==> address_trouble(
                    self@.row_addresses,
                    row_address,
                ) is None),
                Err(error) => !is_null && address_trouble(self@.row_addresses, row_address) == Some(
                    error@,
                ),
            },
    {
        if is_null {
            return Ok(false);
        }
        self.check_address(row_address)?;
        Ok(true)
    }

    /// Checks that a document follows the earlier ones.
    fn check_address(&self, row_address: u64) -> (result: DatabaseResult<()>)
        ensures
            match result {
                Ok(()) => address_trouble(self@.row_addresses, row_address) is None,
                Err(error) => address_trouble(self@.row_addresses, row_address) == Some(error@),
            },
    {
        let count: usize = self.row_addresses.len();
        if count > 0 && self.row_addresses[count - 1] >= row_address {
            return Err(
                DatabaseError::index(
                    "PLAID build requires strictly increasing physical row addresses",
                ),
            );
        }
        Ok(())
    }

    /// Assigns a token to a centroid, from its score with each of them.
    pub fn assign(scores: &[u32]) -> (result: DatabaseResult<u32>)
        requires
            scores@.len() > 0,
        ensures
            match result {
                Ok(code) => best_score_at(scores@, code as int),
                Err(error) => exists|place: int|
                    place > u32::MAX && #[trigger] best_score_at(scores@, place) && error@
                        == Trouble::Index("PLAID centroid ordinal exceeds u32"@),
            },
    {
        let place: usize = nearest_centroid(scores);
        if place as u64 > u32::MAX as u64 {
            assert(best_score_at(scores@, place as int));
            return Err(DatabaseError::index("PLAID centroid ordinal exceeds u32"));
        }
        Ok(place as u32)
    }

    /// Takes in a document: the codes of its tokens and their residuals.
    pub fn add_document(&mut self, row_address: u64, codes: &[u32], residuals: &Matrix) -> (result:
        DatabaseResult<()>)
        requires
            old(self).wf(),
            codes@.len() == residuals@.rows,
            residuals@.columns == old(self).dimension(),
            all_below(codes@, old(self).centroids()),
        ensures
            final(self).wf(),
            final(self).book() == old(self).book(),
            final(self).dimension() == old(self).dimension(),
            final(self).centroids() == old(self).centroids(),
            ({
                let order = address_trouble(old(self)@.row_addresses, row_address);
                let fault = quantize_fault(old(self).book(), residuals@);
                match result {
                    Ok(()) => {
                        &&& order is None
                        &&& fault is None
                        &&& final(self)@.row_addresses == old(self)@.row_addresses.push(row_address)
                        &&& final(self)@.token_codes == old(self)@.token_codes + codes@
                        &&& final(self)@.document_offsets == old(self)@.document_offsets.push(
                            (old(self)@.token_codes.len() + codes@.len()) as u64,
                        )
                        &&& final(self)@.packed_residuals.len() >= old(
                            self,
                        )@.packed_residuals.len()
                        &&& final(self)@.packed_residuals.take(
                            old(self)@.packed_residuals.len() as int,
                        ) == old(self)@.packed_residuals
                        &&& old(self).book().packs(
                            residuals@.values,
                            final(self)@.packed_residuals.skip(
                                old(self)@.packed_residuals.len() as int,
                            ),
                        )
                    },
                    Err(error) => final(self)@ == old(self)@ && if order is Some {
                        order == Some(error@)
                    } else {
                        fault is Some && error@ == kernel_trouble(fault->0)
                    },
                }
            }),
    {
        proof {
            use_type_invariant(residuals);
        }
        self.check_address(row_address)?;
        let packed = match self.quantizer.quantize(residuals) {
            Ok(packed) => packed,
            Err(error) => {
                return Err(plaid_error(error));
            },
        };
        let ghost before = self@;
        let ghost book = self.quantizer@;
        self.row_addresses.push(row_address);
        self.token_codes.extend_from_slice(codes);
        self.packed_residuals.extend_from_slice(packed.as_slice());
        assert(self.token_codes@ =~= before.token_codes + codes@);
        assert(self.packed_residuals@ =~= before.packed_residuals + packed@);
        assert(self.token_codes@.len() == self.token_codes.len());
        self.document_offsets.push(self.token_codes.len() as u64);
        proof {
            let after = self@;
            let old_count = before.token_codes.len() as int;
            assert(after.row_addresses.drop_last() =~= before.row_addresses);
            assert(after.token_codes.take(old_count) =~= before.token_codes);
            assert(after.token_codes.skip(old_count) =~= codes@);
            encoded_documents_grow(
                before,
                after,
                book,
                self.dimension as nat,
                self.num_centroids as nat,
                residuals@,
                packed@,
            );
            assert(after.packed_residuals.take(before.packed_residuals.len() as int)
                =~= before.packed_residuals);
            assert(after.packed_residuals.skip(before.packed_residuals.len() as int) =~= packed@);
        }
        Ok(())
    }

    /// Makes a segment of the encoded documents.
    pub fn finish(self, centroids: Matrix, ids: &mut InstanceIds) -> (result: DatabaseResult<
        PlaidIndex,
    >)
        requires
            self.wf(),
            centroids@.rows == self.centroids(),
            centroids@.columns == self.dimension(),
        ensures
            ({
                let segment = self@.segment(centroids@, self.book());
                match result {
                    Ok(index) => self@.row_addresses.len() > 0 && build_fault(segment) is None
                        && index@ == segment,
                    Err(error) => if self@.row_addresses.len() == 0 {
                        error@ == Trouble::InvalidInput(
                            "PLAID cannot build an index without non-null documents"@,
                        )
                    } else {
                        build_fault(segment) is Some && error@ == kernel_trouble(
                            build_fault(segment)->0,
                        )
                    },
                }
            }),
            result is Err && self@.row_addresses.len() > 0 ==> self@.row_addresses.len()
                > MAX_DOCUMENTS || self.dimension() == 0 || self.centroids() == 0
                || !centroids@.finite(),
    {
        if self.row_addresses.len() == 0 {
            return Err(
                DatabaseError::invalid_input(
                    "PLAID cannot build an index without non-null documents",
                ),
            );
        }
        proof {
            use_type_invariant(&self.quantizer);
            use_type_invariant(&centroids);
            assert(self.token_codes@.len() == self.token_codes.len());
            assert(self.packed_residuals@.len() == self.packed_residuals.len());
            if self@.row_addresses.len() <= MAX_DOCUMENTS && self.dimension() > 0
                && self.centroids() > 0 && centroids@.finite() {
                encoded_documents_make_a_segment(self@, self.book(), centroids@);
            }
        }
        match PlaidIndex::try_new(
            centroids,
            self.quantizer,
            self.row_addresses,
            self.document_offsets,
            self.token_codes,
            self.packed_residuals,
            ids,
        ) {
            Ok(index) => Ok(index),
            Err(error) => Err(plaid_error(error)),
        }
    }
}

proof fn encoded_documents_grow(
    before: Encoded,
    after: Encoded,
    book: Codebook,
    dimension: nat,
    centroids: nat,
    residuals: Grid,
    packed: Seq<u8>,
)
    requires
        before.wf(book, dimension, centroids),
        book.packing_fault(dimension) is None,
        residuals.wf(),
        residuals.columns == dimension,
        book.packs(residuals.values, packed),
        after.row_addresses.len() == before.row_addresses.len() + 1,
        after.row_addresses.drop_last() == before.row_addresses,
        before.row_addresses.len() > 0 ==> before.row_addresses.last() < after.row_addresses.last(),
        after.token_codes.len() == before.token_codes.len() + residuals.rows,
        after.token_codes.take(before.token_codes.len() as int) == before.token_codes,
        all_below(after.token_codes.skip(before.token_codes.len() as int), centroids),
        after.token_codes.len() <= u64::MAX,
        after.document_offsets == before.document_offsets.push(after.token_codes.len() as u64),
        after.packed_residuals == before.packed_residuals + packed,
    ensures
        after.wf(book, dimension, centroids),
{
    let count = before.row_addresses.len() as int;
    assert forall|i: int, j: int| 0 <= i < j < after.row_addresses.len() implies #[trigger] after.row_addresses[i]
        < #[trigger] after.row_addresses[j] by {
        let earlier = after.row_addresses.drop_last();
        assert(earlier[i] == after.row_addresses[i]);
        if j < count {
            assert(earlier[j] == after.row_addresses[j]);
        } else if i < count - 1 {
            assert(before.row_addresses[i] < before.row_addresses[count - 1]);
        }
    }
    assert forall|i: int| 0 <= i < after.token_codes.len() implies #[trigger] after.token_codes[i]
        < centroids by {
        let old_count = before.token_codes.len() as int;
        if i < old_count {
            assert(after.token_codes.take(old_count)[i] == after.token_codes[i]);
        } else {
            assert(after.token_codes.skip(old_count)[i - old_count] == after.token_codes[i]);
        }
    }
    assert forall|i: int, j: int|
        0 <= i <= j < after.document_offsets.len() implies #[trigger] after.document_offsets[i]
        <= #[trigger] after.document_offsets[j] by {
        if i <= count && j == count + 1 {
            assert(before.document_offsets[i] <= before.document_offsets[count]);
        }
    }
    let length = book.packed_len(dimension) as int;
    let bits = (dimension * book.nbits) as int;
    assert(length * 8 == bits);
    assert(packed.len() == residuals.rows * length) by (nonlinear_arith)
        requires
            packed.len() * 8 == (residuals.rows * dimension) * book.nbits,
            length * 8 == bits,
            bits == dimension * book.nbits,
    ;
    assert(after.token_codes.len() * length == before.token_codes.len() * length + residuals.rows
        * length) by (nonlinear_arith)
        requires
            after.token_codes.len() == before.token_codes.len() + residuals.rows,
    ;
}

/// What was encoded document by document makes up a segment.
pub proof fn encoded_documents_make_a_segment(encoded: Encoded, book: Codebook, centroids: Grid)
    requires
        book.wf(),
        centroids.wf(),
        centroids.finite(),
        centroids.rows > 0,
        centroids.columns > 0,
        book.packing_fault(centroids.columns) is None,
        encoded.wf(book, centroids.columns, centroids.rows),
        encoded.row_addresses.len() <= MAX_DOCUMENTS,
        encoded.token_codes.len() <= usize::MAX,
        encoded.packed_residuals.len() <= usize::MAX,
    ensures
        build_fault(encoded.segment(centroids, book)) is None,
{
    let segment = encoded.segment(centroids, book);
    built_postings_are_consistent(
        centroids.rows,
        encoded.document_offsets,
        encoded.token_codes,
        encoded.row_addresses.len(),
    );
    assert(all_finite(segment.centroids.values));
    assert(segment.tokens() * segment.packed_len() == encoded.packed_residuals.len());
}

/// Values in the total order occur as often as they were given.
proof fn total_order_keeps_counts(values: Seq<u32>)
    ensures
        in_total_order(values).to_multiset() == values.to_multiset(),
{
    let wrapped = values.map_values(|bits: u32| OrderedValue { bits });
    let unwrap = |value: OrderedValue| value.bits;
    ascending_is_sorted_permutation(wrapped);
    mapped_rearrangement(ascending(wrapped), wrapped, unwrap);
    assert(wrapped.map_values(unwrap) =~= values);
}

/// A list holds the same values as another one, each as often, and none before a
/// smaller one.
pub open spec fn sorts(sorted: Seq<u32>, values: Seq<u32>) -> bool {
    &&& sorted.to_multiset() == values.to_multiset()
    &&& sorted.len() == values.len()
    &&& forall|i: int, j: int|
        0 <= i < j < sorted.len() ==> scalar::total_position(#[trigger] sorted[i])
            <= scalar::total_position(#[trigger] sorted[j])
}

/// A quantile lies at a rank among sorted values that is a fraction: on the value
/// of that rank where it is whole, and else between the two next to it, as far
/// above the lower one as the rank is.
pub open spec fn lies_at_rank(
    terms: Option<QuantileTerms>,
    sorted: Seq<u32>,
    numerator: int,
    denominator: int,
) -> bool {
    &&& terms is Some
    &&& 0 <= numerator / denominator < sorted.len()
    &&& terms->0.lower == sorted[numerator / denominator]
    &&& numerator % denominator == 0 ==> terms->0.upper == terms->0.lower
    &&& numerator % denominator != 0 ==> numerator / denominator + 1 < sorted.len()
        && terms->0.upper == sorted[numerator / denominator + 1]
    &&& terms->0.parts == numerator % denominator
    &&& terms->0.of_parts == denominator
}

/// The quantile at a fraction lies at that fraction of the way from the first to
/// the last of the sorted values.
pub proof fn quantiles_lie_at_their_rank(values: Seq<u32>, numerator: nat, denominator: nat)
    requires
        values.len() > 0,
        0 < denominator <= u32::MAX,
        numerator <= denominator,
    ensures
        sorts(in_total_order(values), values),
        lies_at_rank(
            quantile_terms(values, numerator, denominator),
            in_total_order(values),
            numerator * (values.len() - 1),
            denominator as int,
        ),
{
    total_order_sorts(values);
    total_order_keeps_counts(values);
    let last = (values.len() - 1) as int;
    let position = numerator * last;
    assert(0 <= position / (denominator as int) <= last && (position % (denominator as int) != 0
        ==> position / (denominator as int) < last)) by (nonlinear_arith)
        requires
            position == numerator * last,
            0 <= numerator <= denominator,
            0 < denominator,
            0 <= last,
    ;
}

/// The buckets of a quantizer divide the sorted residuals evenly, and each is
/// stood for by its own middle: the cutoff behind a bucket lies at the rank of as
/// many parts as there are buckets up to it, and the weight of a bucket half a
/// part before. So the weight lies between the cutoffs of its bucket.
pub proof fn weights_lie_in_their_buckets(values: Seq<u32>, buckets: nat, bucket: int)
    requires
        values.len() > 0,
        1 < buckets <= 0x1_0000,
        0 <= bucket < buckets,
    ensures
        ({
            let sorted = in_total_order(values);
            let last = values.len() - 1;
            let cutoffs = cutoff_quantiles(values, buckets);
            let weights = weight_quantiles(values, buckets);
            &&& sorts(sorted, values)
            &&& cutoffs.len() == buckets - 1
            &&& weights.len() == buckets
            &&& lies_at_rank(
                weights[bucket],
                sorted,
                (2 * bucket + 1) * last,
                2 * buckets as int,
            )
            &&& bucket > 0 ==> {
                &&& lies_at_rank(cutoffs[bucket - 1], sorted, bucket * last, buckets as int)
                &&& scalar::total_position(cutoffs[bucket - 1]->0.lower)
                    <= scalar::total_position(weights[bucket]->0.lower)
                &&& scalar::total_position(cutoffs[bucket - 1]->0.upper)
                    <= scalar::total_position(weights[bucket]->0.upper)
            }
            &&& bucket < buckets - 1 ==> {
                &&& lies_at_rank(cutoffs[bucket], sorted, (bucket + 1) * last, buckets as int)
                &&& scalar::total_position(weights[bucket]->0.lower) <= scalar::total_position(
                    cutoffs[bucket]->0.lower,
                )
                &&& scalar::total_position(weights[bucket]->0.upper) <= scalar::total_position(
                    cutoffs[bucket]->0.upper,
                )
            }
        }),
{
    let sorted = in_total_order(values);
    let last = values.len() - 1;
    let cutoffs = cutoff_quantiles(values, buckets);
    let weights = weight_quantiles(values, buckets);
    quantiles_lie_at_their_rank(values, (2 * bucket + 1) as nat, 2 * buckets);
    let middle = (2 * bucket + 1) * last;
    if bucket > 0 {
        quantiles_lie_at_their_rank(values, bucket as nat, buckets);
        assert(cutoffs[bucket - 1] == quantile_terms(values, bucket as nat, buckets));
        assert((bucket * last) * (2 * buckets) <= middle * buckets) by (nonlinear_arith)
            requires
                middle == (2 * bucket + 1) * last,
                last >= 0,
                buckets >= 0,
        ;
        ranks_order_quantiles(
            cutoffs[bucket - 1],
            weights[bucket],
            sorted,
            bucket * last,
            buckets as int,
            middle,
            2 * buckets as int,
        );
    }
    if bucket < buckets - 1 {
        quantiles_lie_at_their_rank(values, (bucket + 1) as nat, buckets);
        assert(cutoffs[bucket] == quantile_terms(values, (bucket + 1) as nat, buckets));
        assert(middle * buckets <= ((bucket + 1) * last) * (2 * buckets)) by (nonlinear_arith)
            requires
                middle == (2 * bucket + 1) * last,
                last >= 0,
                buckets >= 0,
        ;
        ranks_order_quantiles(
            weights[bucket],
            cutoffs[bucket],
            sorted,
            middle,
            2 * buckets as int,
            (bucket + 1) * last,
            buckets as int,
        );
    }
}

/// Of two quantiles the one at the smaller rank lies no higher.
proof fn ranks_order_quantiles(
    low: Option<QuantileTerms>,
    high: Option<QuantileTerms>,
    sorted: Seq<u32>,
    low_numerator: int,
    low_denominator: int,
    high_numerator: int,
    high_denominator: int,
)
    requires
        lies_at_rank(low, sorted, low_numerator, low_denominator),
        lies_at_rank(high, sorted, high_numerator, high_denominator),
        sorts(sorted, sorted),
        0 < low_denominator,
        0 < high_denominator,
        0 <= low_numerator,
        0 <= high_numerator,
        low_numerator * high_denominator <= high_numerator * low_denominator,
    ensures
        scalar::total_position(low->0.lower) <= scalar::total_position(high->0.lower),
        scalar::total_position(low->0.upper) <= scalar::total_position(high->0.upper),
{
    let a = low_numerator / low_denominator;
    let b = high_numerator / high_denominator;
    let r = low_numerator % low_denominator;
    let s = high_numerator % high_denominator;
    assert(low_numerator == a * low_denominator + r && 0 <= r < low_denominator && high_numerator
        == b * high_denominator + s && 0 <= s < high_denominator) by (nonlinear_arith)
        requires
            0 < low_denominator,
            0 < high_denominator,
            a == low_numerator / low_denominator,
            b == high_numerator / high_denominator,
            r == low_numerator % low_denominator,
            s == high_numerator % high_denominator,
    ;
    assert(a <= b) by (nonlinear_arith)
        requires
            low_numerator * high_denominator <= high_numerator * low_denominator,
            low_numerator == a * low_denominator + r,
            high_numerator == b * high_denominator + s,
            0 <= r < low_denominator,
            0 <= s < high_denominator,
    ;
    assert(a == b && s == 0 ==> r == 0) by (nonlinear_arith)
        requires
            low_numerator * high_denominator <= high_numerator * low_denominator,
            low_numerator == a * low_denominator + r,
            high_numerator == b * high_denominator + s,
            0 <= r < low_denominator,
            0 < high_denominator,
    ;
    let above = if r == 0 {
        a
    } else {
        a + 1
    };
    let beyond = if s == 0 {
        b
    } else {
        b + 1
    };
    assert(above <= beyond);
    if a < b {
        assert(scalar::total_position(sorted[a]) <= scalar::total_position(sorted[b]));
    }
    if above < beyond {
        assert(scalar::total_position(sorted[above]) <= scalar::total_position(sorted[beyond]));
    }
}

/// As long as double precision rounds nothing, the number of centroids is the
/// largest power of two whose square is at most 256 times the number of tokens, or
/// the number of tokens where that is smaller.
pub proof fn automatic_centroids_follow_the_root(total_tokens: nat)
    requires
        0 < total_tokens < 0x3_ffff_ffff_fffe,
    ensures
        exists|exponent: nat|
            {
                let root = #[trigger] pow2(exponent);
                &&& root * root <= 256 * total_tokens
                &&& 256 * total_tokens < (2 * root) * (2 * root)
                &&& automatic_centroids(total_tokens) == if root < total_tokens {
                    root
                } else {
                    total_tokens
                }
            },
{
    let exponent = quarterings(256 * total_tokens);
    let root = pow2(exponent);
    small_counts_have_exact_centroids(total_tokens);
    automatic_centroids_bracket_the_root(256 * total_tokens);
    assert((2 * root) * (2 * root) == 4 * (root * root)) by (nonlinear_arith);
}

/// Beyond that the number of centroids is at most twice as large.
pub proof fn rounding_at_most_doubles_centroids(total_tokens: nat)
    requires
        total_tokens > 0,
    ensures
        automatic_centroids(total_tokens) <= total_tokens,
        exists|exponent: nat|
            {
                let root = #[trigger] pow2(exponent);
                &&& root * root <= 256 * total_tokens
                &&& 256 * total_tokens < (2 * root) * (2 * root)
                &&& automatic_centroids(total_tokens) == total_tokens || automatic_centroids(
                    total_tokens,
                ) == root || automatic_centroids(total_tokens) == 2 * root
            },
{
    let exponent = quarterings(256 * total_tokens);
    let root = pow2(exponent);
    automatic_centroids_bracket_the_root(256 * total_tokens);
    vstd::arithmetic::power2::lemma_pow2_unfold(exponent + 1);
    assert((2 * root) * (2 * root) == 4 * (root * root)) by (nonlinear_arith);
}

/// Null documents add no tokens, and others add as many as they have.
pub proof fn tokens_are_counted_document_by_document(
    lengths: Seq<Option<usize>>,
    length: Option<usize>,
)
    ensures
        token_sum(Seq::empty()) == 0,
        token_sum(lengths.push(length)) == token_sum(lengths) + if length is Some {
            length->0 as int
        } else {
            0
        },
{
    assert(lengths.push(length).drop_last() =~= lengths);
}

/// A sample that is not full keeps every token behind the earlier ones. A full one
/// puts a token in the place that was drawn for it, keeps all other places, and
/// drops the token where that place lies beyond the sample.
pub proof fn drawn_places_take_the_token(sample: Sample, token: Seq<u32>, place: nat, slot: nat)
    requires
        sample.wf(),
        token.len() == sample.dimension,
    ensures
        ({
            let after = sample.values_with(token, place);
            let width = sample.dimension as int;
            &&& sample.seen < sample.size ==> {
                &&& after.len() == sample.values.len() + width
                &&& after.take(sample.values.len() as int) == sample.values
                &&& after.skip(sample.values.len() as int) == token
            }
            &&& sample.seen >= sample.size ==> {
                &&& after.len() == sample.values.len()
                &&& place >= sample.size ==> after == sample.values
                &&& slot < sample.size ==> {
                    &&& 0 <= slot * width
                    &&& slot * width + width <= after.len()
                    &&& after.subrange(slot * width, slot * width + width) == if slot == place {
                        token
                    } else {
                        sample.values.subrange(slot * width, slot * width + width)
                    }
                }
            }
        }),
{
    let after = sample.values_with(token, place);
    let width = sample.dimension as int;
    if sample.seen < sample.size {
        assert(after.take(sample.values.len() as int) =~= sample.values);
        assert(after.skip(sample.values.len() as int) =~= token);
    } else {
        let size = sample.size as int;
        if place < size {
            assert(0 <= place * width && place * width + width <= size * width) by (nonlinear_arith)
                requires
                    0 <= place < size,
                    width >= 0,
            ;
        }
        if slot < size {
            assert(0 <= slot * width && slot * width + width <= size * width) by (nonlinear_arith)
                requires
                    0 <= slot < size,
                    width >= 0,
            ;
            if place < size && slot < place {
                assert(slot * width + width <= place * width) by (nonlinear_arith)
                    requires
                        slot < place,
                        width >= 0,
                ;
            }
            if place < size && place < slot {
                assert(place * width + width <= slot * width) by (nonlinear_arith)
                    requires
                        place < slot,
                        width >= 0,
                ;
            }
            assert(after.subrange(slot * width, slot * width + width) =~= if slot == place {
                token
            } else {
                sample.values.subrange(slot * width, slot * width + width)
            });
        }
    }
}

/// A token is assigned to the most similar centroid: no other one is more similar,
/// and no earlier one is as similar.
pub proof fn nearest_centroids_are_most_similar(scores: Seq<u32>, place: int, other: int)
    requires
        best_score_at(scores, place),
        0 <= other < scores.len(),
    ensures
        0 <= place < scores.len(),
        scalar::total_position(scores[other]) <= scalar::total_position(scores[place]),
        other < place ==> scalar::total_position(scores[other]) < scalar::total_position(
            scores[place],
        ),
{
}

/// A column can be trained on exactly where the parameters are accepted and it
/// holds multi-vectors whose bits fill whole bytes.
pub proof fn trained_columns_hold_multi_vectors(
    params: PlaidIndexParams,
    column: ColumnType,
    name: Seq<char>,
)
    ensures
        column_trouble(params, column, name) is None <==> {
            &&& params.max_iterations >= 1
            &&& params.sample_rate >= 1
            &&& params.nbits == 2 || params.nbits == 4
            &&& match column {
                ColumnType::MultiVector { dimension } => 0 < dimension * params.nbits <= usize::MAX
                    && (dimension * params.nbits) % 8 == 0,
                _ => false,
            }
        },
{
    if let ColumnType::MultiVector { dimension } = column {
        assert(usize::MAX % 8 == 7);
        assert((params.nbits == 2 || params.nbits == 4) ==> (0 < dimension <==> 0 < dimension
            * params.nbits)) by (nonlinear_arith);
    }
}

/// A token is accepted exactly where it has values and all are finite. A document is
/// sampled exactly where none of its tokens is missing, each is accepted, and the
/// tokens can still be counted.
pub proof fn sampled_documents_have_accepted_tokens(tokens: Seq<Option<Seq<u32>>>, seen: nat)
    ensures
        offer_trouble(tokens, seen) is None <==> {
            &&& forall|i: int|
                0 <= i < tokens.len() ==> (#[trigger] tokens[i]) is Some && (tokens[i]->0).len() > 0
                    && all_finite(tokens[i]->0)
            &&& tokens.len() > 0 ==> seen + tokens.len() <= usize::MAX
        },
    decreases tokens.len(),
{
    if tokens.len() > 0 {
        let shorter = tokens.drop_last();
        let last = tokens.len() - 1;
        sampled_documents_have_accepted_tokens(shorter, seen);
        assert(tokens[last] == tokens.last());
        assert forall|i: int| 0 <= i < last implies #[trigger] tokens[i] == shorter[i] by {}
        if offer_trouble(tokens, seen) is None {
            assert forall|i: int| 0 <= i < tokens.len() implies (#[trigger] tokens[i]) is Some && (
            tokens[i]->0).len() > 0 && all_finite(tokens[i]->0) by {
                if i < last {
                    assert(shorter[i] == tokens[i]);
                }
            }
        }
    }
}

/// Tokens are offered to a sample one after the other, each with its own place.
pub proof fn tokens_are_offered_in_order(
    sample: Sample,
    tokens: Seq<Option<Seq<u32>>>,
    token: Seq<u32>,
    places: Seq<nat>,
)
    requires
        places.len() == tokens.len() + 1,
    ensures
        sampled_after(sample, Seq::empty(), places) == sample,
        ({
            let before = sampled_after(sample, tokens, places);
            let after = sampled_after(sample, tokens.push(Some(token)), places);
            &&& after.seen == before.seen + 1
            &&& after.size == before.size
            &&& after.dimension == before.dimension
            &&& after.values == before.values_with(token, places.last())
        }),
{
    assert(tokens.push(Some(token)).drop_last() =~= tokens);
    assert(tokens.push(Some(token)).last() == Some(token));
}

/// The residual of a token is the difference of its values and those of its
/// centroid, value by value.
pub proof fn residuals_pair_values_with_their_centroid(
    token: Seq<u32>,
    centroid: Seq<u32>,
    place: int,
)
    requires
        0 <= place < token.len(),
    ensures
        residual_terms(token, centroid).len() == token.len(),
        residual_terms(token, centroid)[place].value == token[place],
        residual_terms(token, centroid)[place].centroid == centroid[place],
{
}

/// A document follows the earlier ones exactly where its address is larger than the
/// last of theirs. A set number of centroids is asked for as it is.
pub proof fn documents_come_in_the_order_of_addresses(
    addresses: Seq<u64>,
    address: u64,
    params: PlaidIndexParams,
    total_tokens: nat,
)
    ensures
        address_trouble(addresses, address) is None <==> addresses.len() == 0 || addresses.last()
            < address,
        params.num_centroids > 0 ==> requested_count(params, total_tokens) == params.num_centroids,
        params.num_centroids == 0 ==> requested_count(params, total_tokens) == automatic_centroids(
            total_tokens,
        ),
{
}

/// Where rounding doubles the number of centroids, at most 91136 tokens are missing
/// to the count for which it is exact.
pub proof fn rounding_doubles_only_near_the_next_power(total_tokens: nat, exponent: nat)
    requires
        total_tokens > 0,
        pow2(exponent) * pow2(exponent) <= 256 * total_tokens,
        256 * total_tokens < (2 * pow2(exponent)) * (2 * pow2(exponent)),
        automatic_centroids(total_tokens) == 2 * pow2(exponent),
        automatic_centroids(total_tokens) < total_tokens,
    ensures
        (2 * pow2(exponent)) * (2 * pow2(exponent)) <= 256 * (total_tokens + 91136),
{
    let own = quarterings(256 * total_tokens);
    let root = pow2(exponent);
    automatic_centroids_bracket_the_root(256 * total_tokens);
    bracketed_roots_are_unique(exponent, own, 256 * total_tokens);
    vstd::arithmetic::power2::lemma_pow2_unfold(own + 1);
    vstd::arithmetic::power2::lemma_pow2_pos(own);
    assert(own >= 4) by {
        if own < 4 {
            vstd::arithmetic::power2::lemma2_to64();
            assert(root * root <= 8 * 8) by (nonlinear_arith)
                requires
                    root <= 8,
            ;
            assert(own == 0 || own == 1 || own == 2 || own == 3);
        }
    }
    vstd::arithmetic::power2::lemma_pow2_adds(own + 1, own + 1);
    vstd::arithmetic::power2::lemma_pow2_adds(8, (2 * own - 6) as nat);
    vstd::arithmetic::power2::lemma2_to64();
    assert(pow2(2 * own + 2) == 256 * pow2((2 * own - 6) as nat));
    assert((2 * root) * (2 * root) == pow2(2 * own + 2));
}

proof fn bracketed_roots_are_unique(left: nat, right: nat, value: nat)
    requires
        pow2(left) * pow2(left) <= value,
        value < (2 * pow2(left)) * (2 * pow2(left)),
        pow2(right) * pow2(right) <= value,
        value < 4 * (pow2(right) * pow2(right)),
    ensures
        left == right,
{
    let a = pow2(left);
    let b = pow2(right);
    if left < right {
        double_reaches(left, right);
        assert((2 * a) * (2 * a) <= b * b) by (nonlinear_arith)
            requires
                0 <= 2 * a <= b,
        ;
    }
    if right < left {
        double_reaches(right, left);
        assert(4 * (b * b) <= a * a) by (nonlinear_arith)
            requires
                0 <= 2 * b <= a,
        ;
    }
}

proof fn double_reaches(left: nat, right: nat)
    requires
        left < right,
    ensures
        2 * pow2(left) <= pow2(right),
    decreases right - left,
{
    vstd::arithmetic::power2::lemma_pow2_unfold(right);
    if left + 1 < right {
        double_reaches(left, (right - 1) as nat);
    }
}

} // verus!
