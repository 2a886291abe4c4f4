//! Exact MaxSim over stored vectors.
//!
//! Dot products and sums are computed outside. What is checked here is that a
//! query and the stored documents can be scored, and what is chosen is the best
//! similarity for each query token.

use crate::codec::all_finite;
use crate::database::{DatabaseError, DatabaseResult, Trouble};
use crate::matrix::{row_bounds, Grid, Matrix};
use crate::scalar;
use crate::text::{decimal, text_two_numbers};
use vstd::prelude::*;

verus! {

/// The stored tokens of one document.
#[derive(Debug)]
pub struct TokenArray {
    /// Number of tokens.
    pub tokens: usize,
    /// Values of each token.
    pub value_length: i32,
    /// Tokens that are null.
    pub null_tokens: usize,
    /// The values of all tokens, where they are single-precision numbers.
    pub values: Option<Vec<u32>>,
    /// Values that are null.
    pub null_values: usize,
}

/// Why the stored tokens of a document cannot be scored.
pub open spec fn document_trouble(dimension: nat, document: TokenArray) -> Option<Trouble> {
    if document.tokens == 0 {
        None
    } else if document.value_length < 0 {
        Some(Trouble::InvalidInput("PLAID exact document dimension does not fit usize"@))
    } else if document.value_length != dimension {
        Some(
            Trouble::InvalidInput(
                "PLAID exact document dimension "@ + decimal(document.value_length as nat)
                    + " does not match query dimension "@ + decimal(dimension),
            ),
        )
    } else if document.null_tokens != 0 {
        Some(
            Trouble::InvalidInput("PLAID exact refinement does not support null token vectors"@),
        )
    } else if document.values is None {
        Some(
            Trouble::InvalidInput("PLAID exact refinement requires Float32 document token values"@),
        )
    } else if document.null_values != 0 {
        Some(Trouble::InvalidInput("PLAID exact refinement does not support null token values"@))
    } else if !all_finite((document.values->0)@) {
        Some(Trouble::InvalidInput("PLAID exact document contains non-finite values"@))
    } else if document.tokens * dimension > usize::MAX {
        Some(Trouble::InvalidInput("PLAID exact document shape overflow"@))
    } else if (document.values->0)@.len() != document.tokens * dimension {
        Some(
            Trouble::InvalidInput("PLAID exact document values do not match its token shape"@),
        )
    } else {
        None
    }
}

/// Why a query cannot be scored exactly.
pub open spec fn exact_query_trouble(query: Grid, contiguous: bool) -> Option<Trouble> {
    if query.columns == 0 {
        Some(Trouble::InvalidInput("PLAID exact query dimension must be positive"@))
    } else if !contiguous {
        Some(Trouble::InvalidInput("PLAID exact query matrix must be row-major contiguous"@))
    } else if !query.finite() {
        Some(Trouble::InvalidInput("PLAID exact query contains non-finite values"@))
    } else {
        None
    }
}

/// A finite multi-vector query validated once for a batch of exact refinement
/// candidates.
#[derive(Debug)]
pub struct ExactMaxsimScorer<'a> {
    query: &'a Matrix,
}

impl<'a> ExactMaxsimScorer<'a> {
    /// The query that is scored.
    pub closed spec fn query(self) -> Grid {
        self.query@
    }

    /// Checks a query. `contiguous` tells whether its values are stored row by
    /// row without gaps.
    pub fn try_new(query: &'a Matrix, contiguous: bool) -> (result: DatabaseResult<
        ExactMaxsimScorer<'a>,
    >)
        ensures
            match result {
                Ok(scorer) => exact_query_trouble(query@, contiguous) is None && scorer.query()
                    == query@,
                Err(error) => exact_query_trouble(query@, contiguous) == Some(error@),
            },
    {
        if query.columns() == 0 {
            return Err(
                DatabaseError::invalid_input("PLAID exact query dimension must be positive"),
            );
        }
        if !contiguous {
            return Err(
                DatabaseError::invalid_input(
                    "PLAID exact query matrix must be row-major contiguous",
                ),
            );
        }
        if !scalar::all_finite(query.values().as_slice()) {
            return Err(
                DatabaseError::invalid_input("PLAID exact query contains non-finite values"),
            );
        }
        Ok(ExactMaxsimScorer { query })
    }

    /// Checks the stored tokens of a document. What comes back is how many of
    /// them are to be scored against each query token. A document without tokens
    /// has no score.
    pub fn score(&self, document: &TokenArray) -> (result: DatabaseResult<usize>)
        ensures
            match result {
                Ok(tokens) => document_trouble(self.query().columns, *document) is None && tokens
                    == document.tokens,
                Err(error) => document_trouble(self.query().columns, *document) == Some(error@),
            },
    {
        if document.tokens == 0 {
            return Ok(0);
        }
        if document.value_length < 0 {
            return Err(
                DatabaseError::invalid_input("PLAID exact document dimension does not fit usize"),
            );
        }
        let dimension: usize = self.query.columns();
        if document.value_length as usize != dimension {
            return Err(
                DatabaseError::InvalidInput(
                    text_two_numbers(
                        "PLAID exact document dimension ",
                        document.value_length as u64,
                        " does not match query dimension ",
                        dimension as u64,
                    ),
                ),
            );
        }
        if document.null_tokens != 0 {
            return Err(
                DatabaseError::invalid_input(
                    "PLAID exact refinement does not support null token vectors",
                ),
            );
        }
        let values = match &document.values {
            Some(values) => values,
            None => {
                return Err(
                    DatabaseError::invalid_input(
                        "PLAID exact refinement requires Float32 document token values",
                    ),
                );
            },
        };
        if document.null_values != 0 {
            return Err(
                DatabaseError::invalid_input(
                    "PLAID exact refinement does not support null token values",
                ),
            );
        }
        if !scalar::all_finite(values.as_slice()) {
            return Err(
                DatabaseError::invalid_input("PLAID exact document contains non-finite values"),
            );
        }
        let expected: usize = match document.tokens.checked_mul(dimension) {
            Some(expected) => expected,
            None => {
                return Err(DatabaseError::invalid_input("PLAID exact document shape overflow"));
            },
        };
        if values.len() != expected {
            return Err(
                DatabaseError::invalid_input(
                    "PLAID exact document values do not match its token shape",
                ),
            );
        }
        Ok(document.tokens)
    }
}

/// Why the first of some stored documents that cannot be scored cannot be. A
/// document may be null.
pub open spec fn first_trouble(dimension: nat, documents: Seq<Option<TokenArray>>) -> Option<Trouble>
    decreases documents.len(),
{
    if documents.len() == 0 {
        None
    } else {
        match first_trouble(dimension, documents.drop_last()) {
            Some(trouble) => Some(trouble),
            None => match documents.last() {
                None => Some(
                    Trouble::Internal(
                        "PLAID candidate unexpectedly resolved to a null document"@,
                    ),
                ),
                Some(document) => document_trouble(dimension, document),
            },
        }
    }
}

proof fn first_trouble_stays(dimension: nat, documents: Seq<Option<TokenArray>>, count: int)
    requires
        0 <= count <= documents.len(),
        first_trouble(dimension, documents.take(count)) is Some,
    ensures
        first_trouble(dimension, documents) == first_trouble(dimension, documents.take(count)),
    decreases documents.len() - count,
{
    if count == documents.len() {
        assert(documents.take(count) =~= documents);
    } else {
        assert(documents.take(count + 1).drop_last() =~= documents.take(count));
        first_trouble_stays(dimension, documents, count + 1);
    }
}

/// Checks a query and the stored documents that it is scored against. What comes
/// back is how many tokens of each document are to be scored.
pub fn exact_scores(query: &Matrix, contiguous: bool, documents: &Vec<Option<TokenArray>>) -> (result:
    DatabaseResult<Vec<usize>>)
    ensures
        match result {
            Ok(tokens) => {
                &&& exact_query_trouble(query@, contiguous) is None
                &&& first_trouble(query@.columns, documents@) is None
                &&& tokens@.len() == documents@.len()
                &&& forall|i: int|
                    0 <= i < documents@.len() ==> (#[trigger] documents@[i]) is Some && tokens@[i]
                        == (documents@[i]->0).tokens
            },
            Err(error) => if exact_query_trouble(query@, contiguous) is Some {
                exact_query_trouble(query@, contiguous) == Some(error@)
            } else {
                first_trouble(query@.columns, documents@) == Some(error@)
            },
        },
{
    let scorer = ExactMaxsimScorer::try_new(query, contiguous)?;
    let mut tokens: Vec<usize> = Vec::new();
    let mut i: usize = 0;
    assert(documents@.take(0) =~= Seq::<Option<TokenArray>>::empty());
    while i < documents.len()
        invariant
            scorer.query() == query@,
            exact_query_trouble(query@, contiguous) is None,
            i <= documents@.len(),
            tokens@.len() == i,
            first_trouble(query@.columns, documents@.take(i as int)) is None,
            forall|j: int|
                0 <= j < i ==> (#[trigger] documents@[j]) is Some && tokens@[j]
                    == (documents@[j]->0).tokens,
        decreases documents@.len() - i,
    {
        proof {
            assert(documents@.take(i + 1).drop_last() =~= documents@.take(i as int));
            assert(documents@.take(i + 1).last() == documents@[i as int]);
            if first_trouble(query@.columns, documents@.take(i + 1)) is Some {
                first_trouble_stays(query@.columns, documents@, i + 1);
            }
        }
        match &documents[i] {
            None => {
                return Err(
                    DatabaseError::internal(
                        "PLAID candidate unexpectedly resolved to a null document",
                    ),
                );
            },
            Some(document) => {
                let count: usize = scorer.score(document)?;
                tokens.push(count);
            },
        }
        i += 1;
    }
    assert(documents@.take(i as int) =~= documents@);
    Ok(tokens)
}

/// The largest of some similarities as numbers, or negative infinity where none
/// exceeds it.
pub open spec fn largest_number(similarities: Seq<u32>) -> u32
    decreases similarities.len(),
{
    if similarities.len() == 0 {
        scalar::NEG_INFINITY
    } else {
        let earlier = largest_number(similarities.drop_last());
        if scalar::greater(similarities.last(), earlier) {
            similarities.last()
        } else {
            earlier
        }
    }
}

/// No number exceeds the largest one, which is itself a number.
pub proof fn largest_number_is_largest(similarities: Seq<u32>)
    ensures
        !scalar::nan(largest_number(similarities)),
        forall|i: int|
            0 <= i < similarities.len() ==> !scalar::greater(
                #[trigger] similarities[i],
                largest_number(similarities),
            ),
        largest_number(similarities) == scalar::NEG_INFINITY || similarities.contains(
            largest_number(similarities),
        ),
    decreases similarities.len(),
{
    if similarities.len() > 0 {
        let shorter = similarities.drop_last();
        largest_number_is_largest(shorter);
        assert forall|i: int| 0 <= i < similarities.len() implies !scalar::greater(
            #[trigger] similarities[i],
            largest_number(similarities),
        ) by {
            if i < shorter.len() {
                assert(shorter[i] == similarities[i]);
            }
        }
        if largest_number(similarities) == similarities.last() {
            assert(similarities[similarities.len() - 1] == similarities.last());
        } else if shorter.contains(largest_number(shorter)) {
            let i = choose|i: int|
                0 <= i < shorter.len() && shorter[i] == largest_number(shorter);
            assert(similarities[i] == largest_number(similarities));
        }
    }
}

/// The terms of an exact score: for each query token, the largest similarity with
/// a document token. The similarities have one row for each query token.
pub fn exact_maxima(similarities: &Matrix) -> (result: Vec<u32>)
    ensures
        result@ == Seq::new(
            similarities@.rows,
            |token: int| largest_number(similarities@.row(token)),
        ),
{
    let mut maxima: Vec<u32> = Vec::new();
    let mut token: usize = 0;
    while token < similarities.rows()
        invariant
            token <= similarities@.rows,
            maxima@ =~= Seq::new(
                token as nat,
                |token: int| largest_number(similarities@.row(token)),
            ),
        decreases similarities@.rows - token,
    {
        proof {
            use_type_invariant(similarities);
            row_bounds(similarities@, token as int);
        }
        let ghost row = similarities@.row(token as int);
        let mut maximum: u32 = scalar::NEG_INFINITY;
        let mut column: usize = 0;
        assert(row.take(0) =~= Seq::<u32>::empty());
        while column < similarities.columns()
            invariant
                token < similarities@.rows,
                row == similarities@.row(token as int),
                row.len() == similarities@.columns,
                column <= similarities@.columns,
                maximum == largest_number(row.take(column as int)),
            decreases similarities@.columns - column,
        {
            let similarity: u32 = similarities.value(token, column);
            assert(row.take(column + 1).drop_last() =~= row.take(column as int));
            if scalar::is_greater(similarity, maximum) {
                maximum = similarity;
            }
            column += 1;
        }
        assert(row.take(column as int) =~= row);
        maxima.push(maximum);
        token += 1;
    }
    maxima
}

/// A document is scored exactly where it has no tokens, or tokens of the dimension
/// of the query, none of them and none of their values missing, all of them finite
/// and as many as its shape calls for.
pub proof fn scored_documents_are_complete(dimension: nat, document: TokenArray)
    ensures
        document_trouble(dimension, document) is None <==> document.tokens == 0 || {
            &&& document.value_length == dimension
            &&& document.null_tokens == 0
            &&& document.values is Some
            &&& document.null_values == 0
            &&& document.tokens * dimension <= usize::MAX
            &&& (document.values->0)@.len() == document.tokens * dimension
            &&& forall|i: int|
                0 <= i < (document.values->0)@.len() ==> (
                #[trigger] (document.values->0)@[i] as int / 0x80_0000) % 256 != 255
        },
{
    if let Some(values) = document.values {
        finite_lists_have_finite_exponents(values@);
    }
}

/// A list of numbers is finite exactly where no exponent has all bits set.
pub proof fn finite_lists_have_finite_exponents(values: Seq<u32>)
    ensures
        all_finite(values) <==> forall|i: int|
            0 <= i < values.len() ==> (#[trigger] values[i] as int / 0x80_0000) % 256 != 255,
{
    if all_finite(values) {
        assert forall|i: int| 0 <= i < values.len() implies (#[trigger] values[i] as int
            / 0x80_0000) % 256 != 255 by {
            scalar::exponents_tell_finite_numbers(values[i]);
        }
    }
    if forall|i: int|
        0 <= i < values.len() ==> (#[trigger] values[i] as int / 0x80_0000) % 256 != 255 {
        assert forall|i: int| 0 <= i < values.len() implies scalar::finite(
            #[trigger] values[i],
        ) by {
            scalar::exponents_tell_finite_numbers(values[i]);
        }
    }
}

/// Documents are scored where each of them can be. Otherwise the first that cannot
/// is reported: a missing one, or the first with a trouble.
pub proof fn first_troubled_document_is_reported(
    dimension: nat,
    documents: Seq<Option<TokenArray>>,
)
    ensures
        first_trouble(dimension, documents) is None <==> forall|i: int|
            0 <= i < documents.len() ==> (#[trigger] documents[i]) is Some && document_trouble(
                dimension,
                documents[i]->0,
            ) is None,
        first_trouble(dimension, documents) is Some ==> exists|i: int|
            {
                &&& 0 <= i < documents.len()
                &&& first_trouble(dimension, documents.take(i)) is None
                &&& (#[trigger] documents[i]) is Some ==> first_trouble(dimension, documents)
                    == document_trouble(dimension, documents[i]->0)
            },
    decreases documents.len(),
{
    if documents.len() > 0 {
        let shorter = documents.drop_last();
        first_troubled_document_is_reported(dimension, shorter);
        if first_trouble(dimension, shorter) is Some {
            let i = choose|i: int|
                {
                    &&& 0 <= i < shorter.len()
                    &&& first_trouble(dimension, shorter.take(i)) is None
                    &&& (#[trigger] shorter[i]) is Some ==> first_trouble(dimension, shorter)
                        == document_trouble(dimension, shorter[i]->0)
                };
            assert(shorter.take(i) =~= documents.take(i));
            assert(documents[i] == shorter[i]);
            let j = choose|j: int|
                0 <= j < shorter.len() && !((#[trigger] shorter[j]) is Some && document_trouble(
                    dimension,
                    shorter[j]->0,
                ) is None);
            assert(documents[j] == shorter[j]);
        } else {
            let last = documents.len() - 1;
            assert(documents.take(last) =~= shorter);
            assert(documents[last] == documents.last());
            if first_trouble(dimension, documents) is None {
                assert forall|i: int| 0 <= i < documents.len() implies (
                #[trigger] documents[i]) is Some && document_trouble(
                    dimension,
                    documents[i]->0,
                ) is None by {
                    if i < last {
                        assert(shorter[i] == documents[i]);
                    }
                }
            }
        }
    }
}

/// A query is scored exactly where its tokens have values, lie one behind the other
/// and are finite.
pub proof fn scored_queries_are_finite(query: Grid, contiguous: bool)
    ensures
        exact_query_trouble(query, contiguous) is None <==> {
            &&& query.columns > 0
            &&& contiguous
            &&& forall|i: int|
                0 <= i < query.values.len() ==> (#[trigger] query.values[i] as int / 0x80_0000) % 256
                    != 255
        },
{
    finite_lists_have_finite_exponents(query.values);
    assert(query.finite() <==> all_finite(query.values));
}

} // verus!
