//! Immutable PLAID data of one database index segment.

use crate::codec::{
    all_finite, buckets_count_cutoffs_below, cut_bits_keep_their_value, unpacking_undoes_packing,
    Codebook, ResidualQuantizer,
};
use crate::error::{Error, Fault, Result};
use crate::joined::joined;
use crate::matrix::{row_bounds, rows_hold_their_columns, Grid, Matrix};
use crate::postings::{
    build_postings, document_codes, document_fault, documents_with, first_document_fault,
    list_offsets, names, posting_lists, posting_range_is_posting_list, postings_fault,
    postings_name_the_documents_of_a_centroid, smallest_from, smallest_from_properties,
    too_many_documents, MAX_DOCUMENTS,
};
use crate::scalar;
use crate::text::{decimal, text_two_numbers};
use vstd::prelude::*;

verus! {

/// Exact values in document-ordinal order, as a mathematical object.
#[verifier::ext_equal]
pub struct ExactValues {
    pub public_row_ids: Seq<u64>,
    pub raw_token_values: Seq<u32>,
}

/// The data of a segment as a mathematical object.
#[verifier::ext_equal]
pub struct Segment {
    pub centroids: Grid,
    pub codebook: Codebook,
    pub row_addresses: Seq<u64>,
    pub document_offsets: Seq<u64>,
    pub token_codes: Seq<u32>,
    pub packed_residuals: Seq<u8>,
    pub posting_offsets: Seq<u64>,
    pub postings: Seq<u32>,
    pub exact_store: Option<ExactValues>,
}

/// Offsets that divide `total` items into consecutive groups: they start at
/// zero, never decrease and end at the total.
pub open spec fn divides(offsets: Seq<u64>, groups: nat, total: nat) -> bool {
    &&& offsets.len() == groups + 1
    &&& offsets[0] == 0
    &&& offsets[groups as int] == total
    &&& forall|i: int, j: int|
        0 <= i <= j < offsets.len() ==> #[trigger] offsets[i] <= #[trigger] offsets[j]
}

/// Each address is larger than every earlier one.
pub open spec fn addresses_increase(addresses: Seq<u64>) -> bool {
    forall|i: int, j: int|
        0 <= i < j < addresses.len() ==> #[trigger] addresses[i] < #[trigger] addresses[j]
}

/// Every value lies below a bound.
pub open spec fn all_below(values: Seq<u32>, bound: nat) -> bool {
    forall|i: int| 0 <= i < values.len() ==> #[trigger] values[i] < bound
}

impl Segment {
    pub open spec fn dimension(self) -> nat {
        self.centroids.columns
    }

    pub open spec fn documents(self) -> nat {
        self.row_addresses.len()
    }

    pub open spec fn tokens(self) -> nat {
        self.token_codes.len()
    }

    /// Bytes of one packed token.
    pub open spec fn packed_len(self) -> nat {
        self.codebook.packed_len(self.dimension())
    }

    /// The fault of an exact store that does not fit the segment.
    pub open spec fn exact_store_fault(self, store: ExactValues) -> Option<Fault> {
        if store.public_row_ids.len() != self.documents() {
            Some(
                Fault::InvalidInput(
                    "exact-store public row ID length must be "@ + decimal(self.documents())
                        + ", got "@ + decimal(store.public_row_ids.len()),
                ),
            )
        } else if self.tokens() * self.dimension() > usize::MAX {
            Some(Fault::InvalidInput("exact-store raw token value length overflow"@))
        } else if store.raw_token_values.len() != self.tokens() * self.dimension() {
            Some(
                Fault::InvalidInput(
                    "exact-store raw token value length must be "@ + decimal(
                        self.tokens() * self.dimension(),
                    ) + ", got "@ + decimal(store.raw_token_values.len()),
                ),
            )
        } else if !all_finite(store.raw_token_values) {
            Some(Fault::InvalidInput("exact-store raw token values must be finite"@))
        } else {
            None
        }
    }

    /// The first reason why the data does not make up a segment.
    pub open spec fn fault(self) -> Option<Fault> {
        if self.dimension() == 0 || self.centroids.rows == 0 {
            Some(Fault::InvalidInput("centroid matrix must have non-zero rows and columns"@))
        } else if !all_finite(self.centroids.values) {
            Some(Fault::InvalidInput("centroid values must be finite"@))
        } else if self.documents() > MAX_DOCUMENTS {
            Some(too_many_documents(self.documents()))
        } else if !addresses_increase(self.row_addresses) {
            Some(Fault::InvalidInput("row addresses must be strictly increasing"@))
        } else if !divides(self.document_offsets, self.documents(), self.tokens()) {
            Some(
                Fault::InvalidInput(
                    "document offsets must be monotonic, start at zero, and end at token count"@,
                ),
            )
        } else if !all_below(self.token_codes, self.centroids.rows) {
            Some(Fault::InvalidInput("token code exceeds centroid count"@))
        } else if self.codebook.packing_fault(self.dimension()) is Some {
            self.codebook.packing_fault(self.dimension())
        } else if self.tokens() * self.packed_len() > usize::MAX {
            Some(Fault::InvalidInput("packed residual size overflow"@))
        } else if self.packed_residuals.len() != self.tokens() * self.packed_len() {
            Some(
                Fault::InvalidInput(
                    "packed residual length must be "@ + decimal(self.tokens() * self.packed_len())
                        + ", got "@ + decimal(self.packed_residuals.len()),
                ),
            )
        } else if !divides(self.posting_offsets, self.centroids.rows, self.postings.len()) {
            Some(
                Fault::InvalidInput(
                    "posting offsets must be monotonic, start at zero, and end at posting count"@,
                ),
            )
        } else if !all_below(self.postings, self.documents()) {
            Some(Fault::InvalidInput("posting document ordinal exceeds document count"@))
        } else {
            match self.exact_store {
                Some(store) => self.exact_store_fault(store),
                None => None,
            }
        }
    }

    /// The data makes up a segment. No centroid posts more entries than there
    /// are tokens.
    pub open spec fn wf(self) -> bool {
        &&& self.centroids.wf()
        &&& self.codebook.wf()
        &&& self.fault() is None
        &&& self.postings.len() <= self.tokens()
    }

    /// The tokens of one document are those from `document_start` up to
    /// `document_end`.
    pub open spec fn document_start(self, document: int) -> int {
        self.document_offsets[document] as int
    }

    pub open spec fn document_end(self, document: int) -> int {
        self.document_offsets[document + 1] as int
    }

    /// The token codes of one document.
    pub open spec fn codes_of(self, document: int) -> Seq<u32> {
        self.token_codes.subrange(self.document_start(document), self.document_end(document))
    }

    /// The packed residual of one token.
    pub open spec fn packed_token(self, token: int) -> Seq<u8> {
        self.packed_residuals.subrange(
            token * self.packed_len(),
            token * self.packed_len() + self.packed_len(),
        )
    }

    /// The documents posted for one centroid.
    pub open spec fn posted(self, centroid: int) -> Seq<u32> {
        self.postings.subrange(
            self.posting_offsets[centroid] as int,
            self.posting_offsets[centroid + 1] as int,
        )
    }
}

fn do_offsets_divide(offsets: &Vec<u64>, groups: usize, total: usize) -> (result: bool)
    ensures
        result == divides(offsets@, groups as nat, total as nat),
{
    if offsets.len() == 0 || offsets.len() - 1 != groups || offsets[0] != 0 || offsets[groups]
        != total as u64 {
        return false;
    }
    let mut i: usize = 1;
    while i < offsets.len()
        invariant
            1 <= i <= offsets@.len(),
            forall|a: int, b: int|
                0 <= a <= b < i ==> #[trigger] offsets@[a] <= #[trigger] offsets@[b],
        decreases offsets@.len() - i,
    {
        if offsets[i - 1] > offsets[i] {
            return false;
        }
        assert forall|a: int, b: int| 0 <= a <= b < i + 1 implies #[trigger] offsets@[a]
            <= #[trigger] offsets@[b] by {
            if a < b && b == i {
                assert(offsets@[a] <= offsets@[i - 1]);
            }
        }
        i += 1;
    }
    true
}

fn do_addresses_increase(addresses: &Vec<u64>) -> (result: bool)
    ensures
        result == addresses_increase(addresses@),
{
    let mut i: usize = 1;
    while i < addresses.len()
        invariant
            1 <= i,
            i <= addresses@.len() || addresses@.len() == 0,
            forall|a: int, b: int|
                0 <= a < b < i && b < addresses@.len() ==> #[trigger] addresses@[a]
                    < #[trigger] addresses@[b],
        decreases addresses@.len() - i,
    {
        if addresses[i - 1] >= addresses[i] {
            return false;
        }
        assert forall|a: int, b: int| 0 <= a < b < i + 1 implies #[trigger] addresses@[a]
            < #[trigger] addresses@[b] by {
            if b == i && a < i - 1 {
                assert(addresses@[a] < addresses@[i - 1]);
            }
        }
        i += 1;
    }
    true
}

fn are_all_below(values: &Vec<u32>, bound: usize) -> (result: bool)
    ensures
        result == all_below(values@, bound as nat),
{
    let mut i: usize = 0;
    while i < values.len()
        invariant
            i <= values@.len(),
            forall|j: int| 0 <= j < i ==> #[trigger] values@[j] < bound,
        decreases values@.len() - i,
    {
        if values[i] as usize >= bound {
            return false;
        }
        i += 1;
    }
    true
}

/// Hands out the identities of index instances.
#[derive(Debug)]
pub struct InstanceIds {
    next: u64,
}

impl View for InstanceIds {
    type V = u64;

    closed spec fn view(&self) -> u64 {
        self.next
    }
}

/// The identity handed out after another one.
pub open spec fn following_id(id: u64) -> u64 {
    if id == u64::MAX {
        0
    } else {
        (id + 1) as u64
    }
}

impl InstanceIds {
    /// Starts with the first identity, which is 1.
    pub fn new() -> (result: InstanceIds)
        ensures
            result@ == 1,
    {
        InstanceIds { next: 1 }
    }

    /// Hands out the next identity. Identities only repeat after all of them
    /// were handed out.
    pub fn next_plaid_instance_id(&mut self) -> (result: u64)
        ensures
            result == old(self)@,
            final(self)@ == following_id(old(self)@),
    {
        let id: u64 = self.next;
        self.next = if id == u64::MAX {
            0
        } else {
            id + 1
        };
        id
    }
}

/// Exact values stored in document-ordinal order for database-native refinement.
#[derive(Debug)]
pub struct ExactStore {
    pub public_row_ids: Vec<u64>,
    pub raw_token_values: Vec<u32>,
}

impl View for ExactStore {
    type V = ExactValues;

    open spec fn view(&self) -> ExactValues {
        ExactValues {
            public_row_ids: self.public_row_ids@,
            raw_token_values: self.raw_token_values@,
        }
    }
}

impl Clone for ExactStore {
    fn clone(&self) -> (result: ExactStore)
        ensures
            result@ == self@,
    {
        let public_row_ids = self.public_row_ids.clone();
        let raw_token_values = self.raw_token_values.clone();
        assert(public_row_ids@ =~= self.public_row_ids@);
        assert(raw_token_values@ =~= self.raw_token_values@);
        ExactStore { public_row_ids, raw_token_values }
    }
}

/// The values of an optional exact store.
pub open spec fn exact_values(store: Option<ExactStore>) -> Option<ExactValues> {
    match store {
        Some(store) => Some(store@),
        None => None,
    }
}

/// The parts of a segment before they are checked.
#[derive(Debug)]
pub struct SegmentParts {
    pub centroids: Matrix,
    pub quantizer: ResidualQuantizer,
    pub row_addresses: Vec<u64>,
    pub document_offsets: Vec<u64>,
    pub token_codes: Vec<u32>,
    pub packed_residuals: Vec<u8>,
    pub posting_offsets: Vec<u64>,
    pub postings: Vec<u32>,
    pub exact_store: Option<ExactStore>,
}

impl View for SegmentParts {
    type V = Segment;

    open spec fn view(&self) -> Segment {
        Segment {
            centroids: self.centroids@,
            codebook: self.quantizer@,
            row_addresses: self.row_addresses@,
            document_offsets: self.document_offsets@,
            token_codes: self.token_codes@,
            packed_residuals: self.packed_residuals@,
            posting_offsets: self.posting_offsets@,
            postings: self.postings@,
            exact_store: exact_values(self.exact_store),
        }
    }
}

impl SegmentParts {
    /// Checks that the parts make up a segment.
    pub fn validate(&self) -> (result: Result<()>)
        ensures
            match result {
                Ok(()) => self@.fault() is None,
                Err(error) => self@.fault() == Some(error@),
            },
    {
        let dimension: usize = self.centroids.columns();
        let num_centroids: usize = self.centroids.rows();
        let num_documents: usize = self.row_addresses.len();
        let num_tokens: usize = self.token_codes.len();
        if dimension == 0 || num_centroids == 0 {
            return Err(Error::invalid("centroid matrix must have non-zero rows and columns"));
        }
        if !scalar::all_finite(self.centroids.values().as_slice()) {
            return Err(Error::invalid("centroid values must be finite"));
        }
        if num_documents as u64 > MAX_DOCUMENTS {
            return Err(
                Error::InvalidInput(
                    text_two_numbers(
                        "PLAID v1 supports at most ",
                        MAX_DOCUMENTS,
                        " documents, got ",
                        num_documents as u64,
                    ),
                ),
            );
        }
        if !do_addresses_increase(&self.row_addresses) {
            return Err(Error::invalid("row addresses must be strictly increasing"));
        }
        if !do_offsets_divide(&self.document_offsets, num_documents, num_tokens) {
            return Err(
                Error::invalid(
                    "document offsets must be monotonic, start at zero, and end at token count",
                ),
            );
        }
        if !are_all_below(&self.token_codes, num_centroids) {
            return Err(Error::invalid("token code exceeds centroid count"));
        }
        let packed_len: usize = self.quantizer.packed_len(dimension)?;
        let expected_residual_len: usize = match num_tokens.checked_mul(packed_len) {
            Some(length) => length,
            None => {
                return Err(Error::invalid("packed residual size overflow"));
            },
        };
        if self.packed_residuals.len() != expected_residual_len {
            return Err(
                Error::InvalidInput(
                    text_two_numbers(
                        "packed residual length must be ",
                        expected_residual_len as u64,
                        ", got ",
                        self.packed_residuals.len() as u64,
                    ),
                ),
            );
        }
        if !do_offsets_divide(&self.posting_offsets, num_centroids, self.postings.len()) {
            return Err(
                Error::invalid(
                    "posting offsets must be monotonic, start at zero, and end at posting count",
                ),
            );
        }
        if !are_all_below(&self.postings, num_documents) {
            return Err(Error::invalid("posting document ordinal exceeds document count"));
        }
        match &self.exact_store {
            Some(store) => self.validate_exact_store(store),
            None => Ok(()),
        }
    }

    /// Checks that an exact store fits the other parts.
    fn validate_exact_store(&self, store: &ExactStore) -> (result: Result<()>)
        ensures
            match result {
                Ok(()) => self@.exact_store_fault(store@) is None,
                Err(error) => self@.exact_store_fault(store@) == Some(error@),
            },
    {
        let num_documents: usize = self.row_addresses.len();
        if store.public_row_ids.len() != num_documents {
            return Err(
                Error::InvalidInput(
                    text_two_numbers(
                        "exact-store public row ID length must be ",
                        num_documents as u64,
                        ", got ",
                        store.public_row_ids.len() as u64,
                    ),
                ),
            );
        }
        let expected_raw_len: usize = match self.token_codes.len().checked_mul(
            self.centroids.columns(),
        ) {
            Some(length) => length,
            None => {
                return Err(Error::invalid("exact-store raw token value length overflow"));
            },
        };
        if store.raw_token_values.len() != expected_raw_len {
            return Err(
                Error::InvalidInput(
                    text_two_numbers(
                        "exact-store raw token value length must be ",
                        expected_raw_len as u64,
                        ", got ",
                        store.raw_token_values.len() as u64,
                    ),
                ),
            );
        }
        if !scalar::all_finite(store.raw_token_values.as_slice()) {
            return Err(Error::invalid("exact-store raw token values must be finite"));
        }
        Ok(())
    }
}

impl Clone for SegmentParts {
    fn clone(&self) -> (result: SegmentParts)
        ensures
            result@ == self@,
    {
        let row_addresses = self.row_addresses.clone();
        let document_offsets = self.document_offsets.clone();
        let token_codes = self.token_codes.clone();
        let packed_residuals = self.packed_residuals.clone();
        let posting_offsets = self.posting_offsets.clone();
        let postings = self.postings.clone();
        assert(row_addresses@ =~= self.row_addresses@);
        assert(document_offsets@ =~= self.document_offsets@);
        assert(token_codes@ =~= self.token_codes@);
        assert(packed_residuals@ =~= self.packed_residuals@);
        assert(posting_offsets@ =~= self.posting_offsets@);
        assert(postings@ =~= self.postings@);
        let exact_store = match &self.exact_store {
            Some(store) => Some(store.clone()),
            None => None,
        };
        SegmentParts {
            centroids: self.centroids.clone(),
            quantizer: self.quantizer.clone(),
            row_addresses,
            document_offsets,
            token_codes,
            packed_residuals,
            posting_offsets,
            postings,
            exact_store,
        }
    }
}

/// The segment made of encoded documents: its posting lists are those of its
/// token codes.
pub open spec fn built_segment(
    centroids: Grid,
    codebook: Codebook,
    row_addresses: Seq<u64>,
    document_offsets: Seq<u64>,
    token_codes: Seq<u32>,
    packed_residuals: Seq<u8>,
    exact_store: Option<ExactValues>,
) -> Segment {
    let lists = posting_lists(centroids.rows, document_offsets, token_codes);
    Segment {
        centroids,
        codebook,
        row_addresses,
        document_offsets,
        token_codes,
        packed_residuals,
        posting_offsets: list_offsets(lists),
        postings: joined(lists, lists.len()),
        exact_store,
    }
}

/// The first reason why encoded documents make up no segment.
pub open spec fn build_fault(segment: Segment) -> Option<Fault> {
    let postings = postings_fault(
        segment.centroids.rows,
        segment.document_offsets,
        segment.token_codes,
    );
    if postings is Some {
        postings
    } else {
        segment.fault()
    }
}

/// A refused build still uses up an identity once its postings are built.
pub open spec fn id_after_build(segment: Segment, id: u64) -> u64 {
    if postings_fault(
        segment.centroids.rows,
        segment.document_offsets,
        segment.token_codes,
    ) is Some {
        id
    } else {
        following_id(id)
    }
}

/// The tokens of one document, borrowed from the exact store.
#[derive(Clone, Copy, Debug)]
pub struct ExactDocument<'a> {
    /// Number of tokens.
    pub rows: usize,
    /// Vector dimension.
    pub columns: usize,
    /// Token values, row by row.
    pub values: &'a [u32],
}

/// What the reconstruction of a document's tokens adds up, token by token: the
/// assigned centroid and the decoded residual weights.
#[derive(Debug)]
pub struct DocumentTerms {
    pub centroids: Matrix,
    pub residuals: Matrix,
}

impl Segment {
    /// The row address of a document ordinal.
    pub open spec fn address_of(self, document: u32) -> Option<u64> {
        if document < self.documents() {
            Some(self.row_addresses[document as int])
        } else {
            None
        }
    }

    /// The document ordinal of a row address.
    pub open spec fn ordinal_of(self, address: u64) -> Option<u32> {
        if self.row_addresses.contains(address) {
            Some(
                (choose|i: int|
                    0 <= i < self.documents() && self.row_addresses[i] == address) as u32,
            )
        } else {
            None
        }
    }

    /// The fault of an ordinal outside the segment.
    pub open spec fn ordinal_fault(self, document: u32) -> Option<Fault> {
        if document < self.documents() {
            None
        } else {
            Some(
                Fault::InvalidInput(
                    "document ordinal "@ + decimal(document as nat) + " is out of range for "@
                        + decimal(self.documents()) + " documents"@,
                ),
            )
        }
    }

    /// The fault of a centroid outside the segment.
    pub open spec fn centroid_fault(self, centroid: u32) -> Option<Fault> {
        if centroid < self.centroids.rows {
            None
        } else {
            Some(
                Fault::InvalidInput(
                    "centroid "@ + decimal(centroid as nat) + " is out of range for "@ + decimal(
                        self.centroids.rows,
                    ) + " centroids"@,
                ),
            )
        }
    }

    /// Why a document's tokens cannot be reconstructed.
    pub open spec fn reconstruction_fault(self, document: u32) -> Option<Fault> {
        if self.ordinal_fault(document) is Some {
            self.ordinal_fault(document)
        } else if (self.document_end(document as int) - self.document_start(document as int))
            * self.dimension() > usize::MAX {
            Some(Fault::InvalidInput("reconstructed document size overflow"@))
        } else {
            None
        }
    }

    /// The centroid rows of a document's tokens.
    pub open spec fn assigned_centroids(self, document: int) -> Grid {
        let start = self.document_start(document);
        let tokens = (self.document_end(document) - start) as nat;
        Grid {
            rows: tokens,
            columns: self.dimension(),
            values: rows_joined(
                |token: int| self.centroids.row(self.token_codes[start + token] as int),
                tokens,
            ),
        }
    }

    /// The decoded residual weights of one token.
    pub open spec fn token_weights(self, token: int) -> Seq<u32> {
        Seq::new(
            self.dimension(),
            |d: int|
                self.codebook.weights[self.codebook.unpacked(self.packed_token(token), d) as int],
        )
    }

    /// The decoded residual weights of a document's tokens.
    pub open spec fn residual_weights(self, document: int) -> Grid {
        let start = self.document_start(document);
        let tokens = (self.document_end(document) - start) as nat;
        Grid {
            rows: tokens,
            columns: self.dimension(),
            values: rows_joined(|token: int| self.token_weights(start + token), tokens),
        }
    }

    /// Bytes that the dense arrays occupy.
    pub open spec fn size_bytes(self) -> nat {
        self.centroids.values.len() * 4 + self.codebook.cutoffs.len() * 4
            + self.codebook.weights.len() * 4 + self.row_addresses.len() * 8
            + self.document_offsets.len() * 8 + self.token_codes.len() * 4
            + self.packed_residuals.len() + self.posting_offsets.len() * 8 + self.postings.len() * 4
            + match self.exact_store {
            Some(store) => store.public_row_ids.len() * 8 + store.raw_token_values.len() * 4,
            None => 0,
        }
    }
}

/// Looking an address up by ordinal and the ordinal up by that address gives
/// the ordinal back.
pub proof fn addresses_resolve_to_their_ordinals(segment: Segment, document: u32)
    requires
        segment.wf(),
        document < segment.documents(),
    ensures
        segment.address_of(document) is Some,
        segment.ordinal_of(segment.address_of(document)->0) == Some(document),
{
    let address = segment.row_addresses[document as int];
    let found = choose|i: int|
        0 <= i < segment.documents() && segment.row_addresses[i] == address;
    assert(segment.row_addresses[document as int] == address);
    if found < document {
        assert(segment.row_addresses[found] < segment.row_addresses[document as int]);
    } else if document < found {
        assert(segment.row_addresses[document as int] < segment.row_addresses[found]);
    }
}

/// Looking an ordinal up by address and the address up by that ordinal gives
/// the address back.
pub proof fn ordinals_resolve_to_their_addresses(segment: Segment, address: u64)
    requires
        segment.wf(),
        segment.ordinal_of(address) is Some,
    ensures
        segment.address_of(segment.ordinal_of(address)->0) == Some(address),
{
    let found = choose|i: int|
        0 <= i < segment.documents() && segment.row_addresses[i] == address;
    assert(0 <= found < segment.documents() && segment.row_addresses[found] == address);
}

/// How many numbers below a bound occur among some codes.
spec fn named_count(codes: Seq<u32>, bound: nat) -> nat
    decreases bound,
{
    if bound == 0 {
        0
    } else {
        named_count(codes, (bound - 1) as nat) + if names(codes, bound - 1) {
            1nat
        } else {
            0nat
        }
    }
}

/// The numbers below a bound that occur among some codes.
spec fn named_below(codes: Seq<u32>, bound: nat) -> Set<u32> {
    Set::new(|code: u32| code < bound && codes.contains(code))
}

proof fn named_count_is_set_len(codes: Seq<u32>, bound: nat)
    ensures
        named_below(codes, bound).finite(),
        named_below(codes, bound).len() == named_count(codes, bound),
    decreases bound,
{
    if bound == 0 {
        assert(named_below(codes, bound) =~= Set::<u32>::empty());
    } else {
        let last = (bound - 1) as nat;
        named_count_is_set_len(codes, last);
        if names(codes, bound - 1) {
            assert(named_below(codes, bound) =~= named_below(codes, last).insert(last as u32));
        } else {
            assert(named_below(codes, bound) =~= named_below(codes, last));
        }
    }
}

/// No more numbers occur among some codes than there are codes.
proof fn named_count_is_bounded(codes: Seq<u32>, bound: nat)
    ensures
        named_count(codes, bound) <= codes.len(),
{
    named_count_is_set_len(codes, bound);
    codes.lemma_cardinality_of_set();
    vstd::seq_lib::seq_to_set_is_finite(codes);
    assert(named_below(codes, bound).subset_of(codes.to_set()));
    vstd::set_lib::lemma_len_subset(named_below(codes, bound), codes.to_set());
}

/// The posting lists of the first documents.
spec fn lists_of_first(centroids: nat, offsets: Seq<u64>, codes: Seq<u32>, documents: nat) -> Seq<
    Seq<u32>,
> {
    Seq::new(centroids, |c: int| documents_with(offsets, codes, c, documents))
}

/// One document adds one entry for each centroid that it uses.
proof fn one_document_adds_its_centroids(
    centroids: nat,
    offsets: Seq<u64>,
    codes: Seq<u32>,
    documents: nat,
    count: nat,
)
    requires
        documents > 0,
        count <= centroids,
    ensures
        joined(lists_of_first(centroids, offsets, codes, documents), count).len() == joined(
            lists_of_first(centroids, offsets, codes, (documents - 1) as nat),
            count,
        ).len() + named_count(document_codes(offsets, codes, documents - 1), count),
    decreases count,
{
    if count > 0 {
        let last = (count - 1) as nat;
        one_document_adds_its_centroids(centroids, offsets, codes, documents, last);
        let after = lists_of_first(centroids, offsets, codes, documents);
        let before = lists_of_first(centroids, offsets, codes, (documents - 1) as nat);
        assert(after[last as int] == documents_with(offsets, codes, last as int, documents));
        assert(before[last as int] == documents_with(
            offsets,
            codes,
            last as int,
            (documents - 1) as nat,
        ));
    }
}

/// There are no more posting entries than tokens.
proof fn entries_are_bounded(centroids: nat, offsets: Seq<u64>, codes: Seq<u32>, documents: nat)
    requires
        documents < offsets.len(),
        offsets[0] == 0,
        forall|i: int, j: int|
            0 <= i <= j < offsets.len() ==> #[trigger] offsets[i] <= #[trigger] offsets[j],
        offsets[offsets.len() - 1] <= codes.len(),
    ensures
        joined(lists_of_first(centroids, offsets, codes, documents), centroids).len()
            <= offsets[documents as int],
    decreases documents,
{
    if documents == 0 {
        no_documents_no_entries(centroids, offsets, codes, centroids);
    } else {
        let last = documents - 1;
        entries_are_bounded(centroids, offsets, codes, last as nat);
        one_document_adds_its_centroids(centroids, offsets, codes, documents, centroids);
        assert(offsets[last] <= offsets[documents as int]);
        assert(offsets[documents as int] <= offsets[offsets.len() - 1]);
        named_count_is_bounded(document_codes(offsets, codes, last), centroids);
    }
}

proof fn no_documents_no_entries(centroids: nat, offsets: Seq<u64>, codes: Seq<u32>, count: nat)
    requires
        count <= centroids,
    ensures
        joined(lists_of_first(centroids, offsets, codes, 0), count).len() == 0,
    decreases count,
{
    if count > 0 {
        no_documents_no_entries(centroids, offsets, codes, (count - 1) as nat);
        let lists = lists_of_first(centroids, offsets, codes, 0);
        assert(lists[count - 1] == documents_with(offsets, codes, count - 1, 0));
    }
}

proof fn joined_grows(lists: Seq<Seq<u32>>, shorter: nat, longer: nat)
    requires
        shorter <= longer <= lists.len(),
    ensures
        joined(lists, shorter).len() <= joined(lists, longer).len(),
    decreases longer - shorter,
{
    if shorter < longer {
        joined_grows(lists, shorter, (longer - 1) as nat);
    }
}

proof fn joined_stays_below(lists: Seq<Seq<u32>>, count: nat, bound: nat)
    requires
        count <= lists.len(),
        forall|i: int| 0 <= i < lists.len() ==> all_below(#[trigger] lists[i], bound),
    ensures
        all_below(joined(lists, count), bound),
    decreases count,
{
    if count > 0 {
        joined_stays_below(lists, (count - 1) as nat, bound);
        assert(all_below(lists[count - 1], bound));
    }
}

proof fn sound_documents_have_no_fault(
    centroids: nat,
    offsets: Seq<u64>,
    codes: Seq<u32>,
    documents: nat,
    from: int,
)
    requires
        divides(offsets, documents, codes.len()),
        all_below(codes, centroids),
        codes.len() <= usize::MAX,
        0 <= from <= documents,
    ensures
        first_document_fault(centroids, offsets, codes, from) is None,
    decreases documents - from,
{
    if from < documents {
        sound_documents_have_no_fault(centroids, offsets, codes, documents, from + 1);
        assert(offsets[from] <= offsets[from + 1]);
        assert(offsets[from + 1] <= offsets[documents as int]);
        let own = document_codes(offsets, codes, from);
        smallest_from_properties(own, centroids);
        if smallest_from(own, centroids) is Some {
            let smallest = smallest_from(own, centroids)->0;
            let i = choose|i: int| 0 <= i < own.len() && own[i] == smallest;
            assert(codes[offsets[from] + i] == smallest);
        }
        assert(document_fault(centroids, offsets, codes, from) is None);
    }
}

/// Documents whose offsets divide their tokens, and whose codes are centroids,
/// can be posted, and the posting lists fit a segment.
pub proof fn built_postings_are_consistent(
    centroids: nat,
    offsets: Seq<u64>,
    codes: Seq<u32>,
    documents: nat,
)
    requires
        divides(offsets, documents, codes.len()),
        all_below(codes, centroids),
        documents <= MAX_DOCUMENTS,
        codes.len() <= usize::MAX,
    ensures
        postings_fault(centroids, offsets, codes) is None,
        ({
            let lists = posting_lists(centroids, offsets, codes);
            let postings = joined(lists, lists.len());
            &&& divides(list_offsets(lists), centroids, postings.len())
            &&& all_below(postings, documents)
            &&& postings.len() <= codes.len()
        }),
{
    sound_documents_have_no_fault(centroids, offsets, codes, documents, 0);
    let lists = posting_lists(centroids, offsets, codes);
    assert(lists =~= lists_of_first(centroids, offsets, codes, documents));
    entries_are_bounded(centroids, offsets, codes, documents);
    let starts = list_offsets(lists);
    assert forall|i: int, j: int| 0 <= i <= j < starts.len() implies #[trigger] starts[i]
        <= #[trigger] starts[j] by {
        joined_grows(lists, i as nat, j as nat);
        joined_grows(lists, j as nat, lists.len());
    }
    assert forall|c: int| 0 <= c < lists.len() implies all_below(#[trigger] lists[c], documents) by {
        postings_name_the_documents_of_a_centroid(offsets, codes, c, documents);
        let list = lists[c];
        assert forall|i: int| 0 <= i < list.len() implies #[trigger] list[i] < documents by {
            assert(list.contains(list[i]));
        }
    }
    joined_stays_below(lists, lists.len(), documents);
}

/// In a segment built from encoded documents, the postings of a centroid are
/// the documents that have a token assigned to it.
pub proof fn built_postings_are_posting_lists(segment: Segment, centroid: int)
    requires
        segment.wf(),
        segment == built_segment(
            segment.centroids,
            segment.codebook,
            segment.row_addresses,
            segment.document_offsets,
            segment.token_codes,
            segment.packed_residuals,
            segment.exact_store,
        ),
        0 <= centroid < segment.centroids.rows,
    ensures
        segment.posted(centroid) == documents_with(
            segment.document_offsets,
            segment.token_codes,
            centroid,
            segment.documents(),
        ),
{
    let lists = posting_lists(
        segment.centroids.rows,
        segment.document_offsets,
        segment.token_codes,
    );
    assert(segment.document_offsets[segment.documents() as int] == segment.tokens());
    posting_range_is_posting_list(lists, centroid);
}

/// Rows of equal length one after the other.
pub open spec fn rows_joined(row: spec_fn(int) -> Seq<u32>, count: nat) -> Seq<u32>
    decreases count,
{
    if count == 0 {
        Seq::empty()
    } else {
        rows_joined(row, (count - 1) as nat) + row(count - 1)
    }
}

/// Immutable PLAID data owned by one database index segment.
#[derive(Debug)]
pub struct PlaidIndex {
    instance_id: u64,
    parts: SegmentParts,
}

impl View for PlaidIndex {
    type V = Segment;

    closed spec fn view(&self) -> Segment {
        self.parts@
    }
}

impl PlaidIndex {
    #[verifier::type_invariant]
    pub open spec fn wf(self) -> bool {
        self@.wf()
    }

    /// The identity of this instance.
    pub closed spec fn identity(&self) -> u64 {
        self.instance_id
    }

    /// Builds an immutable PLAID segment from already encoded document tokens.
    ///
    /// Row addresses must be strictly increasing so address-to-ordinal lookup
    /// remains allocation-free. `document_offsets` indexes token rows and must
    /// contain one more entry than `row_addresses`.
    pub fn try_new(
        centroids: Matrix,
        quantizer: ResidualQuantizer,
        row_addresses: Vec<u64>,
        document_offsets: Vec<u64>,
        token_codes: Vec<u32>,
        packed_residuals: Vec<u8>,
        ids: &mut InstanceIds,
    ) -> (result: Result<PlaidIndex>)
        ensures
            ({
                let segment = built_segment(
                    centroids@,
                    quantizer@,
                    row_addresses@,
                    document_offsets@,
                    token_codes@,
                    packed_residuals@,
                    None,
                );
                &&& final(ids)@ == id_after_build(segment, old(ids)@)
                &&& match result {
                    Ok(index) => build_fault(segment) is None && index@ == segment
                        && index.identity() == old(ids)@,
                    Err(error) => build_fault(segment) == Some(error@),
                }
            }),
    {
        Self::build(
            centroids,
            quantizer,
            row_addresses,
            document_offsets,
            token_codes,
            packed_residuals,
            None,
            ids,
        )
    }

    /// Builds an immutable PLAID segment with an index-resident exact store.
    ///
    /// `public_row_ids` and raw token rows are both aligned with the same dense
    /// document ordinals as `row_addresses` and `document_offsets`. The raw
    /// values are flattened row-major with exactly `num_tokens * dimension`
    /// finite values.
    pub fn try_new_with_exact_store(
        centroids: Matrix,
        quantizer: ResidualQuantizer,
        row_addresses: Vec<u64>,
        document_offsets: Vec<u64>,
        token_codes: Vec<u32>,
        packed_residuals: Vec<u8>,
        public_row_ids: Vec<u64>,
        raw_token_values: Vec<u32>,
        ids: &mut InstanceIds,
    ) -> (result: Result<PlaidIndex>)
        ensures
            ({
                let segment = built_segment(
                    centroids@,
                    quantizer@,
                    row_addresses@,
                    document_offsets@,
                    token_codes@,
                    packed_residuals@,
                    Some(
                        ExactValues {
                            public_row_ids: public_row_ids@,
                            raw_token_values: raw_token_values@,
                        },
                    ),
                );
                &&& final(ids)@ == id_after_build(segment, old(ids)@)
                &&& match result {
                    Ok(index) => build_fault(segment) is None && index@ == segment
                        && index.identity() == old(ids)@,
                    Err(error) => build_fault(segment) == Some(error@),
                }
            }),
    {
        Self::build(
            centroids,
            quantizer,
            row_addresses,
            document_offsets,
            token_codes,
            packed_residuals,
            Some(ExactStore { public_row_ids, raw_token_values }),
            ids,
        )
    }

    fn build(
        centroids: Matrix,
        quantizer: ResidualQuantizer,
        row_addresses: Vec<u64>,
        document_offsets: Vec<u64>,
        token_codes: Vec<u32>,
        packed_residuals: Vec<u8>,
        exact_store: Option<ExactStore>,
        ids: &mut InstanceIds,
    ) -> (result: Result<PlaidIndex>)
        ensures
            ({
                let segment = built_segment(
                    centroids@,
                    quantizer@,
                    row_addresses@,
                    document_offsets@,
                    token_codes@,
                    packed_residuals@,
                    exact_values(exact_store),
                );
                &&& final(ids)@ == id_after_build(segment, old(ids)@)
                &&& match result {
                    Ok(index) => build_fault(segment) is None && index@ == segment
                        && index.identity() == old(ids)@,
                    Err(error) => build_fault(segment) == Some(error@),
                }
            }),
    {
        let (posting_offsets, postings) = match build_postings(
            centroids.rows(),
            document_offsets.as_slice(),
            token_codes.as_slice(),
        ) {
            Ok(built) => built,
            Err(error) => {
                return Err(error);
            },
        };
        Self::try_from_parts(
            SegmentParts {
                centroids,
                quantizer,
                row_addresses,
                document_offsets,
                token_codes,
                packed_residuals,
                posting_offsets,
                postings,
                exact_store,
            },
            ids,
        )
    }

    /// Checks the parts of a segment and takes them as an index.
    pub(crate) fn try_from_parts(parts: SegmentParts, ids: &mut InstanceIds) -> (result: Result<
        PlaidIndex,
    >)
        requires
            parts@.postings.len() <= parts@.token_codes.len(),
        ensures
            final(ids)@ == following_id(old(ids)@),
            match result {
                Ok(index) => parts@.fault() is None && index@ == parts@ && index.identity() == old(
                    ids,
                )@,
                Err(error) => parts@.fault() == Some(error@),
            },
    {
        proof {
            use_type_invariant(&parts.centroids);
            use_type_invariant(&parts.quantizer);
        }
        let instance_id: u64 = ids.next_plaid_instance_id();
        match parts.validate() {
            Ok(()) => Ok(PlaidIndex { instance_id, parts }),
            Err(error) => Err(error),
        }
    }

    /// A copy of the data under an identity of its own.
    pub fn clone(&self, ids: &mut InstanceIds) -> (result: PlaidIndex)
        ensures
            result@ == self@,
            result.identity() == old(ids)@,
            final(ids)@ == following_id(old(ids)@),
    {
        proof {
            use_type_invariant(self);
        }
        PlaidIndex { instance_id: ids.next_plaid_instance_id(), parts: self.parts.clone() }
    }

    /// The parts of the segment.
    pub(crate) fn parts(&self) -> (result: &SegmentParts)
        ensures
            result@ == self@,
    {
        &self.parts
    }

    /// Vector dimension shared by centroids, query tokens, and document tokens.
    pub fn dimension(&self) -> (result: usize)
        ensures
            result == self@.dimension(),
    {
        self.parts.centroids.columns()
    }

    /// The identity of this instance.
    pub fn instance_id(&self) -> (result: u64)
        ensures
            result == self.identity(),
    {
        self.instance_id
    }

    /// Number of indexed documents.
    pub fn num_documents(&self) -> (result: usize)
        ensures
            result == self@.documents(),
    {
        self.parts.row_addresses.len()
    }

    /// Number of indexed document tokens.
    pub fn num_tokens(&self) -> (result: usize)
        ensures
            result == self@.tokens(),
    {
        self.parts.token_codes.len()
    }

    /// Number of coarse centroids.
    pub fn num_centroids(&self) -> (result: usize)
        ensures
            result == self@.centroids.rows,
    {
        self.parts.centroids.rows()
    }

    /// Coarse-centroid matrix with shape `[num_centroids, dimension]`.
    pub fn centroids(&self) -> (result: &Matrix)
        ensures
            result@ == self@.centroids,
    {
        &self.parts.centroids
    }

    /// Residual quantizer used by this index segment.
    pub fn quantizer(&self) -> (result: &ResidualQuantizer)
        ensures
            result@ == self@.codebook,
    {
        &self.parts.quantizer
    }

    /// Database row addresses in dense document-ordinal order.
    pub fn row_addresses(&self) -> (result: &[u64])
        ensures
            result@ == self@.row_addresses,
    {
        self.parts.row_addresses.as_slice()
    }

    /// Whether this segment contains index-resident exact vectors.
    pub fn has_exact_store(&self) -> (result: bool)
        ensures
            result == self@.exact_store is Some,
    {
        self.parts.exact_store.is_some()
    }

    /// Public row IDs in dense document-ordinal order, when present.
    pub fn exact_store_row_ids(&self) -> (result: Option<&[u64]>)
        ensures
            match result {
                Some(ids) => self@.exact_store is Some && ids@
                    == self@.exact_store->0.public_row_ids,
                None => self@.exact_store is None,
            },
    {
        match &self.parts.exact_store {
            Some(store) => Some(store.public_row_ids.as_slice()),
            None => None,
        }
    }

    /// Resolves a document ordinal to its exact-store public row ID.
    pub fn exact_public_row_id(&self, document_ordinal: u32) -> (result: Option<u64>)
        ensures
            result == if self@.exact_store is Some && document_ordinal < self@.documents() {
                Some(self@.exact_store->0.public_row_ids[document_ordinal as int])
            } else {
                None
            },
    {
        proof {
            use_type_invariant(self);
        }
        match &self.parts.exact_store {
            Some(store) => if (document_ordinal as usize) < store.public_row_ids.len() {
                Some(store.public_row_ids[document_ordinal as usize])
            } else {
                None
            },
            None => None,
        }
    }

    /// Resolves a dense document ordinal to its database row address.
    pub fn row_address(&self, document_ordinal: u32) -> (result: Option<u64>)
        ensures
            result == self@.address_of(document_ordinal),
    {
        if (document_ordinal as usize) < self.parts.row_addresses.len() {
            Some(self.parts.row_addresses[document_ordinal as usize])
        } else {
            None
        }
    }

    /// Resolves a database row address to its dense document ordinal.
    pub fn document_ordinal(&self, row_address: u64) -> (result: Option<u32>)
        ensures
            result == self@.ordinal_of(row_address),
    {
        proof {
            use_type_invariant(self);
        }
        let addresses = &self.parts.row_addresses;
        let mut low: usize = 0;
        let mut high: usize = addresses.len();
        while low < high
            invariant
                addresses@ == self@.row_addresses,
                self@.wf(),
                low <= high <= addresses@.len(),
                forall|i: int| 0 <= i < low ==> #[trigger] addresses@[i] < row_address,
                forall|i: int| high <= i < addresses@.len() ==> #[trigger] addresses@[i] > row_address,
            decreases high - low,
        {
            let middle: usize = low + (high - low) / 2;
            let address: u64 = addresses[middle];
            if address == row_address {
                proof {
                    addresses_resolve_to_their_ordinals(self@, middle as u32);
                }
                return Some(middle as u32);
            }
            if address < row_address {
                assert forall|i: int| 0 <= i < middle + 1 implies #[trigger] addresses@[i]
                    < row_address by {
                    if i < middle {
                        assert(addresses@[i] < addresses@[middle as int]);
                    }
                }
                low = middle + 1;
            } else {
                assert forall|i: int| middle <= i < addresses@.len() implies #[trigger] addresses@[i]
                    > row_address by {
                    if i > middle {
                        assert(addresses@[middle as int] < addresses@[i]);
                    }
                }
                high = middle;
            }
        }
        None
    }

    /// The token range of one document.
    pub fn document_token_range(&self, document_ordinal: u32) -> (result: Result<(usize, usize)>)
        ensures
            match result {
                Ok((start, end)) => {
                    &&& self@.ordinal_fault(document_ordinal) is None
                    &&& start == self@.document_start(document_ordinal as int)
                    &&& end == self@.document_end(document_ordinal as int)
                    &&& start <= end <= self@.tokens()
                },
                Err(error) => self@.ordinal_fault(document_ordinal) == Some(error@),
            },
    {
        proof {
            use_type_invariant(self);
        }
        let ordinal: usize = document_ordinal as usize;
        let num_documents: usize = self.parts.row_addresses.len();
        if ordinal >= num_documents {
            let mut text = text_two_numbers(
                "document ordinal ",
                document_ordinal as u64,
                " is out of range for ",
                num_documents as u64,
            );
            text.push_str(" documents");
            return Err(Error::InvalidInput(text));
        }
        let offsets = &self.parts.document_offsets;
        assert(self.parts.token_codes@.len() == self.parts.token_codes.len());
        assert(offsets@[ordinal as int] <= offsets@[ordinal + 1] <= offsets@[num_documents as int]);
        Ok((offsets[ordinal] as usize, offsets[ordinal + 1] as usize))
    }

    /// The range of one centroid's posting list.
    pub fn posting_range(&self, centroid: u32) -> (result: Result<(usize, usize)>)
        ensures
            match result {
                Ok((start, end)) => {
                    &&& self@.centroid_fault(centroid) is None
                    &&& start == self@.posting_offsets[centroid as int]
                    &&& end == self@.posting_offsets[centroid + 1]
                    &&& start <= end <= self@.postings.len()
                },
                Err(error) => self@.centroid_fault(centroid) == Some(error@),
            },
    {
        proof {
            use_type_invariant(self);
        }
        let position: usize = centroid as usize;
        let num_centroids: usize = self.parts.centroids.rows();
        if position >= num_centroids {
            let mut text = text_two_numbers(
                "centroid ",
                centroid as u64,
                " is out of range for ",
                num_centroids as u64,
            );
            text.push_str(" centroids");
            return Err(Error::InvalidInput(text));
        }
        let offsets = &self.parts.posting_offsets;
        assert(self.parts.postings@.len() == self.parts.postings.len());
        assert(offsets@[position as int] <= offsets@[position + 1]
            <= offsets@[num_centroids as int]);
        Ok((offsets[position] as usize, offsets[position + 1] as usize))
    }

    /// Borrows one document's raw token matrix without copying.
    ///
    /// Returns `Ok(None)` for an index without an exact store. An ordinal
    /// outside this segment is rejected even when no exact store is present.
    pub fn exact_document(&self, document_ordinal: u32) -> (result: Result<Option<ExactDocument>>)
        ensures
            match result {
                Ok(Some(document)) => {
                    let start = self@.document_start(document_ordinal as int);
                    let end = self@.document_end(document_ordinal as int);
                    &&& self@.ordinal_fault(document_ordinal) is None
                    &&& self@.exact_store is Some
                    &&& document.rows == end - start
                    &&& document.columns == self@.dimension()
                    &&& document.values@ == self@.exact_store->0.raw_token_values.subrange(
                        start * self@.dimension(),
                        end * self@.dimension(),
                    )
                },
                Ok(None) => self@.ordinal_fault(document_ordinal) is None
                    && self@.exact_store is None,
                Err(error) => self@.ordinal_fault(document_ordinal) == Some(error@),
            },
    {
        let (start, end) = self.document_token_range(document_ordinal)?;
        proof {
            use_type_invariant(self);
        }
        match &self.parts.exact_store {
            None => Ok(None),
            Some(store) => {
                let dimension: usize = self.dimension();
                assert(store.raw_token_values@.len() == store.raw_token_values.len());
                assert(0 <= start * dimension <= end * dimension <= self@.tokens() * dimension)
                    by (nonlinear_arith)
                    requires
                        0 <= start <= end <= self@.tokens(),
                        0 <= dimension,
                ;
                let values = vstd::slice::slice_subrange(
                    store.raw_token_values.as_slice(),
                    start * dimension,
                    end * dimension,
                );
                Ok(Some(ExactDocument { rows: end - start, columns: dimension, values }))
            },
        }
    }

    /// Estimated in-memory bytes owned by the index's dense arrays.
    pub fn estimated_size_bytes(&self) -> (result: usize)
        requires
            self@.size_bytes() <= usize::MAX,
        ensures
            result == self@.size_bytes(),
    {
        let exact_bytes: usize = match &self.parts.exact_store {
            Some(store) => store.public_row_ids.len() * 8 + store.raw_token_values.len() * 4,
            None => 0,
        };
        self.parts.centroids.values().len() * 4 + self.parts.quantizer.bucket_cutoffs().len() * 4
            + self.parts.quantizer.bucket_weights().len() * 4 + self.parts.row_addresses.len() * 8
            + self.parts.document_offsets.len() * 8 + self.parts.token_codes.len() * 4
            + self.parts.packed_residuals.len() + self.parts.posting_offsets.len() * 8
            + self.parts.postings.len() * 4 + exact_bytes
    }

    /// The terms whose sums, normalized token by token, are the quantized token
    /// vectors of one document.
    pub fn reconstruct_document(&self, document_ordinal: u32) -> (result: Result<DocumentTerms>)
        ensures
            match result {
                Ok(terms) => {
                    &&& self@.reconstruction_fault(document_ordinal) is None
                    &&& terms.centroids@ == self@.assigned_centroids(document_ordinal as int)
                    &&& terms.residuals@ == self@.residual_weights(document_ordinal as int)
                },
                Err(error) => self@.reconstruction_fault(document_ordinal) == Some(error@),
            },
    {
        let (start, end) = self.document_token_range(document_ordinal)?;
        proof {
            use_type_invariant(self);
        }
        let num_tokens: usize = end - start;
        let dimension: usize = self.dimension();
        if num_tokens.checked_mul(dimension).is_none() {
            return Err(Error::invalid("reconstructed document size overflow"));
        }
        let packed_len: usize = self.parts.quantizer.packed_len(dimension)?;
        let mut centroid_values: Vec<u32> = Vec::new();
        let mut residual_values: Vec<u32> = Vec::new();
        let ghost centroid_row = |token: int|
            self@.centroids.row(self@.token_codes[start + token] as int);
        let ghost residual_row = |token: int| self@.token_weights(start + token);
        let mut token: usize = 0;
        while token < num_tokens
            invariant
                self@.wf(),
                start + num_tokens == end,
                end <= self@.tokens(),
                token <= num_tokens,
                dimension == self@.dimension(),
                packed_len == self@.packed_len(),
                centroid_row == (|token: int|
                    self@.centroids.row(self@.token_codes[start + token] as int)),
                residual_row == (|token: int| self@.token_weights(start + token)),
                centroid_values@ == rows_joined(centroid_row, token as nat),
                residual_values@ == rows_joined(residual_row, token as nat),
                centroid_values@.len() == token * dimension,
                residual_values@.len() == token * dimension,
            decreases num_tokens - token,
        {
            let token_index: usize = start + token;
            let centroid_index: usize = self.parts.token_codes[token_index] as usize;
            proof {
                row_bounds(self@.centroids, centroid_index as int);
            }
            let all_centroids = self.parts.centroids.values();
            assert(all_centroids@.len() == all_centroids.len());
            let centroid_start: usize = centroid_index * dimension;
            let centroid = vstd::slice::slice_subrange(
                all_centroids.as_slice(),
                centroid_start,
                centroid_start + dimension,
            );
            assert(self.parts.packed_residuals@.len() == self.parts.packed_residuals.len());
            assert(0 <= token_index * packed_len && token_index * packed_len + packed_len
                <= self@.tokens() * packed_len) by (nonlinear_arith)
                requires
                    0 <= token_index < self@.tokens(),
                    0 <= packed_len,
            ;
            let packed_start: usize = token_index * packed_len;
            let packed = vstd::slice::slice_subrange(
                self.parts.packed_residuals.as_slice(),
                packed_start,
                packed_start + packed_len,
            );
            let weights = self.parts.quantizer.reconstruct_token(packed, dimension, dimension)?;
            centroid_values.extend_from_slice(centroid);
            residual_values.extend_from_slice(weights.as_slice());
            proof {
                assert(centroid@ =~= centroid_row(token as int));
                assert(weights@ =~= residual_row(token as int));
                assert(centroid_values@ =~= rows_joined(centroid_row, (token + 1) as nat));
                assert(residual_values@ =~= rows_joined(residual_row, (token + 1) as nat));
                assert((token + 1) * dimension == token * dimension + dimension)
                    by (nonlinear_arith);
            }
            token += 1;
        }
        let centroids = Matrix::from_shape_vec(num_tokens, dimension, centroid_values)?;
        let residuals = Matrix::from_shape_vec(num_tokens, dimension, residual_values)?;
        Ok(DocumentTerms { centroids, residuals })
    }

    /// The terms needed to score a query against one document after residual
    /// reconstruction.
    pub fn quantized_maxsim(&self, query: &Matrix, document_ordinal: u32) -> (result: Result<
        DocumentTerms,
    >)
        ensures
            match result {
                Ok(terms) => {
                    &&& query@.columns == self@.dimension()
                    &&& self@.reconstruction_fault(document_ordinal) is None
                    &&& terms.centroids@ == self@.assigned_centroids(document_ordinal as int)
                    &&& terms.residuals@ == self@.residual_weights(document_ordinal as int)
                },
                Err(error) => if query@.columns != self@.dimension() {
                    error@ == Fault::InvalidInput(
                        "query dimension must be "@ + decimal(self@.dimension()) + ", got "@
                            + decimal(query@.columns),
                    )
                } else {
                    self@.reconstruction_fault(document_ordinal) == Some(error@)
                },
            },
    {
        if query.columns() != self.dimension() {
            return Err(
                Error::InvalidInput(
                    text_two_numbers(
                        "query dimension must be ",
                        self.dimension() as u64,
                        ", got ",
                        query.columns() as u64,
                    ),
                ),
            );
        }
        self.reconstruct_document(document_ordinal)
    }
}

/// Rows of equal length that are joined keep their values in place.
proof fn joined_rows_hold_values(
    row: spec_fn(int) -> Seq<u32>,
    count: nat,
    width: nat,
    place: int,
    column: int,
)
    requires
        forall|i: int| 0 <= i < count ==> (#[trigger] row(i)).len() == width,
        0 <= place < count,
        0 <= column < width,
    ensures
        rows_joined(row, count).len() == count * width,
        0 <= place * width + column < count * width,
        rows_joined(row, count)[place * width + column] == row(place)[column],
    decreases count,
{
    joined_rows_have_equal_parts(row, count, width);
    joined_rows_have_equal_parts(row, (count - 1) as nat, width);
    assert(place * width + column < count * width && 0 <= place * width) by (nonlinear_arith)
        requires
            0 <= place < count,
            0 <= column < width,
    ;
    if place < count - 1 {
        joined_rows_hold_values(row, (count - 1) as nat, width, place, column);
    } else {
        assert(row(place).len() == width);
    }
}

proof fn joined_rows_have_equal_parts(row: spec_fn(int) -> Seq<u32>, count: nat, width: nat)
    requires
        forall|i: int| 0 <= i < count ==> (#[trigger] row(i)).len() == width,
    ensures
        rows_joined(row, count).len() == count * width,
    decreases count,
{
    if count > 0 {
        joined_rows_have_equal_parts(row, (count - 1) as nat, width);
        assert(row(count - 1).len() == width);
        assert(count * width == (count - 1) * width + width) by (nonlinear_arith);
    } else {
        assert(0 * width == 0) by (nonlinear_arith);
    }
}

/// A value lies above exactly the first cutoffs, as many as the bucket says.
pub open spec fn falls_into(book: Codebook, value: u32, bucket: int) -> bool {
    &&& 0 <= bucket < book.weights.len()
    &&& forall|i: int|
        0 <= i < book.cutoffs.len() ==> (scalar::greater(value, #[trigger] book.cutoffs[i]) <==> i
            < bucket)
}

/// Quantizing and reconstructing gives every token of a document the weights of
/// its own buckets: where the packed residuals of a segment hold a residual for
/// each token and dimension, the residual that is reconstructed for a token of a
/// document at a dimension is the weight of the bucket that this very residual
/// falls into.
pub proof fn tokens_get_their_own_residuals(
    segment: Segment,
    residuals: Seq<u32>,
    document: int,
    token: int,
    column: int,
    bucket: int,
)
    requires
        segment.wf(),
        residuals.len() == segment.token_codes.len() * segment.centroids.columns,
        segment.codebook.packs(residuals, segment.packed_residuals),
        0 <= document < segment.row_addresses.len(),
        0 <= token < segment.document_offsets[document + 1] - segment.document_offsets[document],
        0 <= column < segment.centroids.columns,
        falls_into(
            segment.codebook,
            residuals[(segment.document_offsets[document] + token) * segment.centroids.columns
                + column],
            bucket,
        ),
    ensures
        ({
            let grid = segment.residual_weights(document);
            &&& grid.rows == segment.document_offsets[document + 1]
                - segment.document_offsets[document]
            &&& grid.columns == segment.centroids.columns
            &&& grid.values.len() == grid.rows * grid.columns
            &&& 0 <= token * segment.centroids.columns + column < grid.values.len()
            &&& grid.values[token * segment.centroids.columns + column]
                == segment.codebook.weights[bucket]
        }),
{
    let book = segment.codebook;
    let dimension = segment.centroids.columns;
    let start = segment.document_offsets[document] as int;
    let tokens = (segment.document_offsets[document + 1] - start) as nat;
    let row = |k: int| segment.token_weights(start + k);
    let own = start + token;
    let length = segment.packed_len();
    let total = segment.token_codes.len();
    assert(own < total) by {
        assert(segment.document_offsets[document + 1]
            <= segment.document_offsets[segment.row_addresses.len() as int]);
    }
    joined_rows_hold_values(row, tokens, dimension, token, column);
    assert(8 * length == dimension * book.nbits);
    assert(0 <= own * length && own * length + length <= total * length && 8 * (own * length)
        == own * (8 * length)) by (nonlinear_arith)
        requires
            0 <= own < total,
            0 <= length,
    ;
    let place = own * dimension + column;
    assert(0 <= place < residuals.len()) by (nonlinear_arith)
        requires
            0 <= own < total,
            0 <= column < dimension,
            place == own * dimension + column,
            residuals.len() == total * dimension,
    ;
    let bits = book.nbits as int;
    assert(column * bits + bits <= dimension * bits && own * (dimension * bits) + column * bits
        == place * bits && 0 <= column * bits) by (nonlinear_arith)
        requires
            0 <= column < dimension,
            place == own * dimension + column,
            bits >= 0,
    ;
    unpacking_undoes_packing(book, residuals, segment.packed_residuals, place);
    cut_bits_keep_their_value(
        segment.packed_residuals,
        own * length,
        own * length + length,
        column * bits,
        bits as nat,
    );
    buckets_count_cutoffs_below(book, residuals[place]);
    let found = book.bucket(residuals[place]) as int;
    if found < bucket {
        assert(scalar::greater(residuals[place], book.cutoffs[found]));
    } else if bucket < found {
        assert(scalar::greater(residuals[place], book.cutoffs[bucket]));
    }
    assert(segment.token_weights(own)[column] == book.weights[bucket]);
}

/// Every token of a document gets the centroid that its own code names, value by
/// value.
pub proof fn tokens_get_their_own_centroids(
    segment: Segment,
    document: int,
    token: int,
    column: int,
)
    requires
        segment.wf(),
        0 <= document < segment.row_addresses.len(),
        0 <= token < segment.document_offsets[document + 1] - segment.document_offsets[document],
        0 <= column < segment.centroids.columns,
    ensures
        ({
            let grid = segment.assigned_centroids(document);
            let code = segment.token_codes[segment.document_offsets[document] + token];
            &&& grid.rows == segment.document_offsets[document + 1]
                - segment.document_offsets[document]
            &&& grid.columns == segment.centroids.columns
            &&& grid.values.len() == grid.rows * grid.columns
            &&& 0 <= token * segment.centroids.columns + column < grid.values.len()
            &&& grid.values[token * segment.centroids.columns + column]
                == segment.centroids.values[code * segment.centroids.columns + column]
        }),
{
    let dimension = segment.centroids.columns;
    let start = segment.document_offsets[document] as int;
    let tokens = (segment.document_offsets[document + 1] - start) as nat;
    let row = |k: int| segment.centroids.row(segment.token_codes[start + k] as int);
    assert(segment.document_offsets[document + 1]
        <= segment.document_offsets[segment.row_addresses.len() as int]);
    assert forall|k: int| 0 <= k < tokens implies (#[trigger] row(k)).len() == dimension by {
        assert(segment.token_codes[start + k] < segment.centroids.rows);
        row_bounds(segment.centroids, segment.token_codes[start + k] as int);
    }
    joined_rows_hold_values(row, tokens, dimension, token, column);
    let code = segment.token_codes[start + token];
    assert(code < segment.centroids.rows);
    rows_hold_their_columns(segment.centroids, code as int, column);
}

/// A centroid posts exactly the documents that have a token with its code, each
/// once and in ascending order.
pub proof fn centroids_post_documents_with_their_code(
    segment: Segment,
    centroid: int,
    document: u32,
)
    requires
        segment.wf(),
        segment == built_segment(
            segment.centroids,
            segment.codebook,
            segment.row_addresses,
            segment.document_offsets,
            segment.token_codes,
            segment.packed_residuals,
            segment.exact_store,
        ),
        0 <= centroid < segment.centroids.rows,
        centroid <= u32::MAX,
    ensures
        ({
            let list = segment.posted(centroid);
            &&& forall|i: int, j: int|
                0 <= i < j < list.len() ==> #[trigger] list[i] < #[trigger] list[j]
            &&& list.contains(document) <==> document < segment.row_addresses.len() && exists|
                token: int,
            |
                segment.document_offsets[document as int] <= token
                    < segment.document_offsets[document + 1]
                    && #[trigger] segment.token_codes[token] == centroid
        }),
{
    built_postings_are_posting_lists(segment, centroid);
    postings_name_the_documents_of_a_centroid(
        segment.document_offsets,
        segment.token_codes,
        centroid,
        segment.documents(),
    );
    if document < segment.documents() {
        let start = segment.document_offsets[document as int] as int;
        let end = segment.document_offsets[document + 1] as int;
        let codes = document_codes(segment.document_offsets, segment.token_codes, document as int);
        assert(start <= end);
        assert(segment.document_offsets[document + 1]
            <= segment.document_offsets[segment.row_addresses.len() as int]);
        if codes.contains(centroid as u32) {
            let k = choose|k: int| 0 <= k < codes.len() && codes[k] == centroid as u32;
            assert(segment.token_codes[start + k] == centroid);
        }
        if exists|token: int|
            start <= token < end && #[trigger] segment.token_codes[token] == centroid {
            let token = choose|token: int|
                start <= token < end && #[trigger] segment.token_codes[token] == centroid;
            assert(codes[token - start] == centroid as u32);
        }
    }
}

/// What a valid segment satisfies: centroids, addresses, offsets, codes, residuals
/// and postings fit together. Data that does not is refused.
pub proof fn valid_segments_fit_together(segment: Segment)
    ensures
        segment.fault() is None <==> {
            let documents = segment.row_addresses.len();
            let tokens = segment.token_codes.len();
            let columns = segment.centroids.columns;
            let bits = columns * segment.codebook.nbits;
            &&& columns > 0
            &&& segment.centroids.rows > 0
            &&& forall|i: int|
                0 <= i < segment.centroids.values.len() ==> scalar::finite(
                    #[trigger] segment.centroids.values[i],
                )
            &&& documents <= MAX_DOCUMENTS
            &&& forall|i: int, j: int|
                0 <= i < j < documents ==> #[trigger] segment.row_addresses[i]
                    < #[trigger] segment.row_addresses[j]
            &&& segment.document_offsets.len() == documents + 1
            &&& segment.document_offsets[0] == 0
            &&& segment.document_offsets[documents as int] == tokens
            &&& forall|i: int, j: int|
                0 <= i <= j <= documents ==> #[trigger] segment.document_offsets[i]
                    <= #[trigger] segment.document_offsets[j]
            &&& forall|i: int|
                0 <= i < tokens ==> #[trigger] segment.token_codes[i] < segment.centroids.rows
            &&& bits <= usize::MAX
            &&& bits % 8 == 0
            &&& tokens * (bits / 8) <= usize::MAX
            &&& segment.packed_residuals.len() == tokens * (bits / 8)
            &&& segment.posting_offsets.len() == segment.centroids.rows + 1
            &&& segment.posting_offsets[0] == 0
            &&& segment.posting_offsets[segment.centroids.rows as int] == segment.postings.len()
            &&& forall|i: int, j: int|
                0 <= i <= j <= segment.centroids.rows ==> #[trigger] segment.posting_offsets[i]
                    <= #[trigger] segment.posting_offsets[j]
            &&& forall|i: int|
                0 <= i < segment.postings.len() ==> #[trigger] segment.postings[i] < documents
            &&& segment.exact_store is Some ==> {
                let store = segment.exact_store->0;
                &&& store.public_row_ids.len() == documents
                &&& tokens * columns <= usize::MAX
                &&& store.raw_token_values.len() == tokens * columns
                &&& forall|i: int|
                    0 <= i < store.raw_token_values.len() ==> scalar::finite(
                        #[trigger] store.raw_token_values[i],
                    )
            }
        },
{
}

/// A document owns the tokens between its offset and the next, a centroid the
/// postings between its offset and the next, and a token as many packed bytes as
/// its bits fill.
pub proof fn offsets_bound_tokens_and_postings(
    segment: Segment,
    document: int,
    centroid: int,
    token: int,
)
    requires
        segment.wf(),
        0 <= document < segment.row_addresses.len(),
        0 <= centroid < segment.centroids.rows,
        0 <= token < segment.token_codes.len(),
    ensures
        segment.documents() == segment.row_addresses.len(),
        segment.tokens() == segment.token_codes.len(),
        segment.dimension() == segment.centroids.columns,
        segment.document_start(document) == segment.document_offsets[document],
        segment.document_end(document) == segment.document_offsets[document + 1],
        segment.codes_of(document).len() == segment.document_offsets[document + 1]
            - segment.document_offsets[document],
        forall|t: int|
            0 <= t < segment.codes_of(document).len() ==> #[trigger] segment.codes_of(document)[t]
                == segment.token_codes[segment.document_offsets[document] + t],
        segment.posted(centroid).len() == segment.posting_offsets[centroid + 1]
            - segment.posting_offsets[centroid],
        forall|p: int|
            0 <= p < segment.posted(centroid).len() ==> #[trigger] segment.posted(centroid)[p]
                == segment.postings[segment.posting_offsets[centroid] + p],
        8 * segment.packed_token(token).len() == segment.centroids.columns * segment.codebook.nbits,
        forall|b: int|
            0 <= b < segment.packed_token(token).len() ==> #[trigger] segment.packed_token(token)[b]
                == segment.packed_residuals[token * segment.packed_token(token).len() + b],
{
    assert(segment.document_offsets[document] <= segment.document_offsets[document + 1]);
    assert(segment.document_offsets[document + 1]
        <= segment.document_offsets[segment.documents() as int]);
    assert(segment.posting_offsets[centroid] <= segment.posting_offsets[centroid + 1]);
    assert(segment.posting_offsets[centroid + 1]
        <= segment.posting_offsets[segment.centroids.rows as int]);
    let width = segment.packed_len();
    assert(0 <= token * width && token * width + width <= segment.tokens() * width)
        by (nonlinear_arith)
        requires
            0 <= token < segment.tokens(),
            width >= 0,
    ;
}

/// A document or a centroid is refused exactly where there is none of its number.
/// Loaded segments get different identities until all have been given out.
pub proof fn numbers_name_documents_and_centroids(segment: Segment, number: u32, id: u64)
    ensures
        segment.ordinal_fault(number) is None <==> number < segment.row_addresses.len(),
        segment.centroid_fault(number) is None <==> number < segment.centroids.rows,
        segment.ordinal_of(segment.row_addresses[number as int]) is Some || number
            >= segment.row_addresses.len(),
        id < 0xffff_ffff_ffff_ffff ==> following_id(id) == id + 1,
        id == 0xffff_ffff_ffff_ffff ==> following_id(id) == 0,
{
}

/// Every number takes the bytes of its type: four in most lists, eight in lists of
/// addresses and offsets, and one in packed residuals.
pub proof fn sizes_count_bytes(segment: Segment, address: u64, code: u32, byte: u8)
    ensures
        (Segment {
            centroids: Grid {
                values: segment.centroids.values.push(code),
                ..segment.centroids
            },
            ..segment
        }).size_bytes() == segment.size_bytes() + 4,
        (Segment {
            codebook: Codebook {
                cutoffs: segment.codebook.cutoffs.push(code),
                ..segment.codebook
            },
            ..segment
        }).size_bytes() == segment.size_bytes() + 4,
        (Segment {
            codebook: Codebook {
                weights: segment.codebook.weights.push(code),
                ..segment.codebook
            },
            ..segment
        }).size_bytes() == segment.size_bytes() + 4,
        (Segment {
            row_addresses: segment.row_addresses.push(address),
            ..segment
        }).size_bytes() == segment.size_bytes() + 8,
        (Segment {
            document_offsets: segment.document_offsets.push(address),
            ..segment
        }).size_bytes() == segment.size_bytes() + 8,
        (Segment {
            posting_offsets: segment.posting_offsets.push(address),
            ..segment
        }).size_bytes() == segment.size_bytes() + 8,
        (Segment {
            token_codes: segment.token_codes.push(code),
            ..segment
        }).size_bytes() == segment.size_bytes() + 4,
        (Segment {
            postings: segment.postings.push(code),
            ..segment
        }).size_bytes() == segment.size_bytes() + 4,
        (Segment {
            packed_residuals: segment.packed_residuals.push(byte),
            ..segment
        }).size_bytes() == segment.size_bytes() + 1,
        segment.exact_store is Some ==> segment.size_bytes() == (Segment {
            exact_store: None,
            ..segment
        }).size_bytes() + 8 * segment.exact_store->0.public_row_ids.len() + 4
            * segment.exact_store->0.raw_token_values.len(),
        segment.centroids.values.len() == 0 && segment.codebook.cutoffs.len() == 0
            && segment.codebook.weights.len() == 0 && segment.row_addresses.len() == 0
            && segment.document_offsets.len() == 0 && segment.token_codes.len() == 0
            && segment.packed_residuals.len() == 0 && segment.posting_offsets.len() == 0
            && segment.postings.len() == 0 && segment.exact_store is None ==> segment.size_bytes()
            == 0,
{
}

/// A document can be reconstructed exactly where it is there and its values can be
/// counted. A segment that is built takes the next identity.
pub proof fn built_segments_take_the_next_identity(segment: Segment, document: u32, id: u64)
    ensures
        segment.reconstruction_fault(document) is None <==> {
            &&& document < segment.row_addresses.len()
            &&& (segment.document_offsets[document + 1]
                - segment.document_offsets[document as int]) * segment.centroids.columns
                <= usize::MAX
        },
        build_fault(segment) is None && id < 0xffff_ffff_ffff_ffff ==> id_after_build(segment, id)
            == id + 1,
        build_fault(segment) is None ==> segment.fault() is None,
{
}

/// A built segment keeps the parts that it is built from.
pub proof fn built_segments_keep_their_parts(
    centroids: Grid,
    codebook: Codebook,
    row_addresses: Seq<u64>,
    document_offsets: Seq<u64>,
    token_codes: Seq<u32>,
    packed_residuals: Seq<u8>,
    exact_store: Option<ExactValues>,
)
    ensures
        ({
            let segment = built_segment(
                centroids,
                codebook,
                row_addresses,
                document_offsets,
                token_codes,
                packed_residuals,
                exact_store,
            );
            &&& segment.centroids == centroids
            &&& segment.codebook == codebook
            &&& segment.row_addresses == row_addresses
            &&& segment.document_offsets == document_offsets
            &&& segment.token_codes == token_codes
            &&& segment.packed_residuals == packed_residuals
            &&& segment.exact_store == exact_store
        }),
{
}

} // verus!
