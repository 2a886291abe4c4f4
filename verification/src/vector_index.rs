//! A PLAID segment as a vector index of the database.

use crate::adaptive::{
    adaptive_documents, allowed_centroids, eligible_set, narrow_filters_restrict_probing,
    ordinals_fault, plan_for, stats_after_rounds, CentroidPlan, EligibleCentroidDecision,
    EligibleCentroidPlan, EligibleSet, Probing,
};
use crate::bitmap::bitmap_values;
use crate::codec::all_finite;
use crate::database::{
    fragment_id, fragment_of, increasing, kernel_trouble, plaid_error, DatabaseError,
    DatabaseResult, RowAddrMask, Trouble,
};
use crate::eligibility::Eligibility;
use crate::format::{decoded_segment, file_fault, id_after_load};
use crate::index::{
    addresses_resolve_to_their_ordinals, ordinals_resolve_to_their_addresses, InstanceIds,
    PlaidIndex, Segment,
};
use crate::matrix::{Grid, Matrix};
use crate::pipeline::{
    adaptive_fault, all_have_tokens, direct_fault, event_fits, final_hits, plans_nothing,
    shortlisted, Request, SearchAction, SearchEvent,
};
use crate::postings::strictly_increasing;
use crate::scalar;
use crate::search::{ranked, smaller, visible, PlaidSearchParams, PlaidSearchStats, SearchHit};
use crate::text::{decimal, push_decimal, text_number, text_two_numbers};
use roaring::RoaringBitmap;
use vstd::prelude::*;
use vstd::string::StrSliceExecFns;

verus! {

/// Approximate candidates that are kept unless more are needed.
pub const PLAID_DEFAULT_N_FULL_SCORES: usize = 4096;

/// Documents that are reconstructed unless fewer are eligible or more are asked
/// for.
pub const PLAID_DEFAULT_DECOMPRESS_DOCUMENTS: usize = 1024;

/// Seed of everything that is drawn while an index is trained.
pub const PLAID_TRAINING_SEED: u64 = 42;

/// The larger of two numbers.
pub open spec fn at_least_both(left: nat, right: nat) -> nat {
    if left < right {
        right
    } else {
        left
    }
}

/// The budgets of a search for a number of candidates among some eligible
/// documents.
pub open spec fn candidate_budgets(
    requested_candidates: nat,
    eligible_documents: nat,
    n_ivf_probe: usize,
) -> PlaidSearchParams {
    let top_k = smaller(
        at_least_both(requested_candidates, PLAID_DEFAULT_DECOMPRESS_DOCUMENTS as nat),
        at_least_both(eligible_documents, 1),
    );
    PlaidSearchParams {
        n_ivf_probe,
        n_full_scores: at_least_both(
            PLAID_DEFAULT_N_FULL_SCORES as nat,
            smaller(4 * top_k, usize::MAX as nat),
        ) as usize,
        top_k: top_k as usize,
        centroid_score_threshold: None,
    }
}

/// The candidate budgets that a search by probing and a direct search share.
pub fn plaid_search_params(
    requested_candidates: usize,
    eligible_documents: usize,
    n_ivf_probe: usize,
) -> (result: PlaidSearchParams)
    ensures
        result == candidate_budgets(
            requested_candidates as nat,
            eligible_documents as nat,
            n_ivf_probe,
        ),
{
    let wanted: usize = if requested_candidates < PLAID_DEFAULT_DECOMPRESS_DOCUMENTS {
        PLAID_DEFAULT_DECOMPRESS_DOCUMENTS
    } else {
        requested_candidates
    };
    let available: usize = if eligible_documents == 0 {
        1
    } else {
        eligible_documents
    };
    let top_k: usize = if wanted < available {
        wanted
    } else {
        available
    };
    let fourfold: usize = if top_k > usize::MAX / 4 {
        usize::MAX
    } else {
        4 * top_k
    };
    let n_full_scores: usize = if PLAID_DEFAULT_N_FULL_SCORES < fourfold {
        fourfold
    } else {
        PLAID_DEFAULT_N_FULL_SCORES
    };
    PlaidSearchParams { n_ivf_probe, n_full_scores, top_k, centroid_score_threshold: None }
}

/// Build parameters for the database-native CPU PLAID index.
#[derive(Clone, Copy, Debug)]
pub struct PlaidIndexParams {
    /// Requested number of coarse centroids. Zero selects the automatic rule.
    pub num_centroids: usize,
    /// Residual bits per dimension: 2 or 4.
    pub nbits: u8,
    /// Maximum KMeans iterations.
    pub max_iterations: u32,
    /// Number of sampled token vectors per requested centroid.
    pub sample_rate: usize,
}

impl Default for PlaidIndexParams {
    fn default() -> (result: PlaidIndexParams)
        ensures
            result.num_centroids == 0,
            result.nbits == 2,
            result.max_iterations == 20,
            result.sample_rate == 256,
    {
        PlaidIndexParams { num_centroids: 0, nbits: 2, max_iterations: 20, sample_rate: 256 }
    }
}

impl PlaidIndexParams {
    /// Why the parameters are refused.
    pub open spec fn trouble(self) -> Option<Trouble> {
        if self.max_iterations == 0 || self.sample_rate == 0 {
            Some(
                Trouble::InvalidInput(
                    "PLAID max_iterations and sample_rate must be positive, got "@ + decimal(
                        self.max_iterations as nat,
                    ) + " and "@ + decimal(self.sample_rate as nat),
                ),
            )
        } else if self.nbits != 2 && self.nbits != 4 {
            Some(
                Trouble::InvalidInput(
                    "PLAID nbits must be 2 or 4, got "@ + decimal(self.nbits as nat),
                ),
            )
        } else {
            None
        }
    }

    /// Checks the parameters.
    pub fn validate(&self) -> (result: DatabaseResult<()>)
        ensures
            match result {
                Ok(()) => self.trouble() is None,
                Err(error) => self.trouble() == Some(error@),
            },
    {
        if self.max_iterations == 0 || self.sample_rate == 0 {
            return Err(
                DatabaseError::InvalidInput(
                    text_two_numbers(
                        "PLAID max_iterations and sample_rate must be positive, got ",
                        self.max_iterations as u64,
                        " and ",
                        self.sample_rate as u64,
                    ),
                ),
            );
        }
        if self.nbits != 2 && self.nbits != 4 {
            return Err(
                DatabaseError::InvalidInput(
                    text_number("PLAID nbits must be 2 or 4, got ", self.nbits as u64),
                ),
            );
        }
        Ok(())
    }

    /// The name of the index family.
    pub fn index_name(&self) -> (result: &'static str)
        ensures
            result@ == "PLAID"@,
    {
        "PLAID"
    }
}

/// A named text that is kept with an index.
#[derive(Debug)]
pub struct RuntimeHint {
    pub name: &'static str,
    pub value: String,
}

/// A named text as a pair of character sequences.
pub open spec fn hint(name: Seq<char>, value: Seq<char>) -> (Seq<char>, Seq<char>) {
    (name, value)
}

/// The hints that mark an index as PLAID and say how it was built.
pub open spec fn hints_for(params: PlaidIndexParams) -> Seq<(Seq<char>, Seq<char>)> {
    seq![
        hint("lance.plaid"@, "true"@),
        hint("lance.plaid.format_version"@, "1"@),
        hint("lance.plaid.nbits"@, decimal(params.nbits as nat)),
        hint(
            "lance.plaid.num_centroids"@,
            if params.num_centroids == 0 {
                "auto"@
            } else {
                decimal(params.num_centroids as nat)
            },
        ),
        hint("lance.plaid.training_seed"@, decimal(PLAID_TRAINING_SEED as nat)),
    ]
}

/// The hints that survive a reopening of the dataset.
pub fn plaid_index_details(params: &PlaidIndexParams) -> (result: Vec<RuntimeHint>)
    ensures
        result@.map_values(|one: RuntimeHint| hint(one.name@, one.value@)) == hints_for(*params),
{
    let mut nbits = String::new();
    push_decimal(&mut nbits, params.nbits as u64);
    let mut centroids = String::new();
    if params.num_centroids == 0 {
        centroids.push_str("auto");
    } else {
        push_decimal(&mut centroids, params.num_centroids as u64);
    }
    let mut seed = String::new();
    push_decimal(&mut seed, PLAID_TRAINING_SEED);
    assert(nbits@ =~= decimal(params.nbits as nat));
    assert(params.num_centroids == 0 ==> centroids@ =~= "auto"@);
    assert(params.num_centroids != 0 ==> centroids@ =~= decimal(params.num_centroids as nat));
    assert(seed@ =~= decimal(PLAID_TRAINING_SEED as nat));
    let mut hints: Vec<RuntimeHint> = Vec::new();
    hints.push(RuntimeHint { name: "lance.plaid", value: "true".to_owned() });
    hints.push(RuntimeHint { name: "lance.plaid.format_version", value: "1".to_owned() });
    hints.push(RuntimeHint { name: "lance.plaid.nbits", value: nbits });
    hints.push(RuntimeHint { name: "lance.plaid.num_centroids", value: centroids });
    hints.push(RuntimeHint { name: "lance.plaid.training_seed", value: seed });
    assert(hints@.map_values(|one: RuntimeHint| hint(one.name@, one.value@)) =~= hints_for(
        *params,
    ));
    hints
}

/// A character with an upper-case ASCII letter made lower-case.
pub open spec fn lowered(character: char) -> char {
    if 'A' <= character <= 'Z' {
        (character as int + 32) as char
    } else {
        character
    }
}

/// A text with its upper-case ASCII letters made lower-case.
pub open spec fn lowercase(text: Seq<char>) -> Seq<char> {
    text.map_values(|character: char| lowered(character))
}

/// A character with an upper-case ASCII letter made lower-case.
fn to_lowered(character: char) -> (result: char)
    ensures
        result == lowered(character),
{
    match character {
        'A' => 'a',
        'B' => 'b',
        'C' => 'c',
        'D' => 'd',
        'E' => 'e',
        'F' => 'f',
        'G' => 'g',
        'H' => 'h',
        'I' => 'i',
        'J' => 'j',
        'K' => 'k',
        'L' => 'l',
        'M' => 'm',
        'N' => 'n',
        'O' => 'o',
        'P' => 'p',
        'Q' => 'q',
        'R' => 'r',
        'S' => 's',
        'T' => 't',
        'U' => 'u',
        'V' => 'v',
        'W' => 'w',
        'X' => 'x',
        'Y' => 'y',
        'Z' => 'z',
        _ => character,
    }
}

/// Whether a text equals a word up to the case of ASCII letters.
pub fn eq_ignore_ascii_case(text: &str, word: &str) -> (result: bool)
    ensures
        result == (lowercase(text@) == lowercase(word@)),
{
    let length: usize = text.unicode_len();
    if length != word.unicode_len() {
        assert(lowercase(text@).len() != lowercase(word@).len());
        return false;
    }
    let mut i: usize = 0;
    while i < length
        invariant
            length == text@.len(),
            length == word@.len(),
            i <= length,
            forall|j: int| 0 <= j < i ==> lowercase(text@)[j] == lowercase(word@)[j],
        decreases length - i,
    {
        if to_lowered(text.get_char(i)) != to_lowered(word.get_char(i)) {
            assert(lowercase(text@)[i as int] != lowercase(word@)[i as int]);
            return false;
        }
        i += 1;
    }
    assert(lowercase(text@) =~= lowercase(word@));
    true
}

/// The text under `lance.plaid` marks an index as PLAID.
pub open spec fn marks_plaid(runtime_hint: Option<&str>) -> bool {
    match runtime_hint {
        Some(value) => lowercase(value@) == "true"@,
        None => false,
    }
}

/// Whether the hints of an index mark it as PLAID, from the text under
/// `lance.plaid`.
pub fn is_plaid_index_metadata(runtime_hint: Option<&str>) -> (result: bool)
    ensures
        result == marks_plaid(runtime_hint),
{
    proof {
        reveal_strlit("true");
        assert(lowercase("true"@) =~= "true"@);
    }
    match runtime_hint {
        Some(value) => eq_ignore_ascii_case(value, "true"),
        None => false,
    }
}

/// What a query asks for.
#[derive(Clone, Copy, Debug)]
pub struct Query {
    /// Number of rows.
    pub k: usize,
    /// Candidates to refine for each row, where refinement is asked for.
    pub refine_factor: Option<u32>,
    /// Fewest probes for each query token.
    pub minimum_nprobes: usize,
    /// Most probes for each query token.
    pub maximum_nprobes: Option<usize>,
    /// Smallest distance.
    pub lower_bound: Option<u32>,
    /// Distance that none may reach.
    pub upper_bound: Option<u32>,
}

/// The answers that are there.
pub open spec fn resolved(answers: Seq<Option<u32>>) -> Seq<u32>
    decreases answers.len(),
{
    if answers.len() == 0 {
        Seq::empty()
    } else {
        let earlier = resolved(answers.drop_last());
        match answers.last() {
            Some(ordinal) => earlier.push(ordinal),
            None => earlier,
        }
    }
}

/// The documents of listed addresses, as far as they are in the segment.
pub open spec fn listed_ordinals(segment: Segment, addresses: Seq<u64>) -> Seq<u32> {
    resolved(addresses.map_values(|address: u64| segment.ordinal_of(address)))
}

/// Larger addresses belong to later documents, so the documents of listed
/// addresses are listed in order, each once.
pub proof fn listed_ordinals_increase(segment: Segment, addresses: Seq<u64>)
    requires
        segment.wf(),
        increasing(addresses),
    ensures
        strictly_increasing(listed_ordinals(segment, addresses)),
        ordinals_fault(segment, listed_ordinals(segment, addresses)) is None,
        listed_ordinals(segment, addresses).len() <= addresses.len(),
    decreases addresses.len(),
{
    listed_ordinals_are_of_addresses(segment, addresses);
    let list = listed_ordinals(segment, addresses);
    let answers = addresses.map_values(|address: u64| segment.ordinal_of(address));
    if addresses.len() > 0 {
        let shorter = addresses.drop_last();
        let last = addresses.last();
        listed_ordinals_increase(segment, shorter);
        listed_ordinals_are_of_addresses(segment, shorter);
        let earlier = listed_ordinals(segment, shorter);
        assert(answers.drop_last() =~= shorter.map_values(
            |address: u64| segment.ordinal_of(address),
        ));
        assert(answers.last() == segment.ordinal_of(last));
        if segment.ordinal_of(last) is Some {
            let own = segment.ordinal_of(last)->0;
            assert(list =~= earlier.push(own));
            ordinals_resolve_to_their_addresses(segment, last);
            assert forall|i: int| 0 <= i < earlier.len() implies #[trigger] earlier[i] < own by {
                let k = choose|k: int|
                    0 <= k < shorter.len() && segment.ordinal_of(#[trigger] shorter[k]) == Some(
                        earlier[i],
                    );
                ordinals_resolve_to_their_addresses(segment, shorter[k]);
                assert(addresses[k] < addresses[addresses.len() - 1]);
                if own <= earlier[i] {
                    if own < earlier[i] {
                        assert(segment.row_addresses[own as int]
                            < segment.row_addresses[earlier[i] as int]);
                    }
                }
            }
            assert(strictly_increasing(list));
            assert(list.last() == own);
        } else {
            assert(list =~= earlier);
        }
    }
}

/// A listed document belongs to one of the addresses.
pub proof fn listed_ordinals_are_of_addresses(segment: Segment, addresses: Seq<u64>)
    ensures
        forall|i: int|
            0 <= i < listed_ordinals(segment, addresses).len() ==> exists|k: int|
                0 <= k < addresses.len() && segment.ordinal_of(#[trigger] addresses[k]) == Some(
                    #[trigger] listed_ordinals(segment, addresses)[i],
                ),
        listed_ordinals(segment, addresses).len() <= addresses.len(),
    decreases addresses.len(),
{
    let list = listed_ordinals(segment, addresses);
    let answers = addresses.map_values(|address: u64| segment.ordinal_of(address));
    if addresses.len() > 0 {
        let shorter = addresses.drop_last();
        listed_ordinals_are_of_addresses(segment, shorter);
        let earlier = listed_ordinals(segment, shorter);
        assert(answers.drop_last() =~= shorter.map_values(
            |address: u64| segment.ordinal_of(address),
        ));
        assert(answers.last() == segment.ordinal_of(addresses.last()));
        assert forall|i: int| 0 <= i < list.len() implies exists|k: int|
            0 <= k < addresses.len() && segment.ordinal_of(#[trigger] addresses[k]) == Some(
                #[trigger] list[i],
            ) by {
            if i < earlier.len() {
                assert(list[i] == earlier[i]);
                let k = choose|k: int|
                    0 <= k < shorter.len() && segment.ordinal_of(#[trigger] shorter[k]) == Some(
                        earlier[i],
                    );
                assert(addresses[k] == shorter[k]);
            } else {
                assert(addresses[addresses.len() - 1] == addresses.last());
            }
        }
    }
}

/// Documents that a mask lists, up to a limit.
#[derive(Debug)]
pub enum BoundedEligibleOrdinals {
    /// The mask does not list its rows.
    NonEnumerable,
    /// All documents of the segment that the mask lists.
    WithinLimit(Vec<u32>),
    /// The mask lists more documents of the segment than the limit.
    OverLimit,
}

/// Resolves addresses one after the other until one document more than the
/// limit is found.
pub fn collect_bounded_document_ordinals(
    addresses: &[u64],
    max_documents: usize,
    resolve: impl Fn(u64) -> Option<u32>,
) -> (result: BoundedEligibleOrdinals)
    requires
        forall|i: int| 0 <= i < addresses@.len() ==> call_requires(
            resolve,
            (#[trigger] addresses@[i],),
        ),
    ensures
        exists|answers: Seq<Option<u32>>|
            {
                &&& answers.len() <= addresses@.len()
                &&& forall|i: int|
                    0 <= i < answers.len() ==> call_ensures(
                        resolve,
                        (addresses@[i],),
                        #[trigger] answers[i],
                    )
                &&& match result {
                    BoundedEligibleOrdinals::NonEnumerable => false,
                    BoundedEligibleOrdinals::WithinLimit(ordinals) => answers.len()
                        == addresses@.len() && ordinals@ == #[trigger] resolved(answers)
                        && ordinals@.len() <= max_documents,
                    BoundedEligibleOrdinals::OverLimit => answers.len() > 0 && answers.last()
                        is Some && resolved(answers).len() == max_documents + 1,
                }
            },
{
    let ghost mut answers: Seq<Option<u32>> = Seq::empty();
    let mut ordinals: Vec<u32> = Vec::new();
    let mut i: usize = 0;
    while i < addresses.len()
        invariant
            forall|i: int| 0 <= i < addresses@.len() ==> call_requires(
                resolve,
                (#[trigger] addresses@[i],),
            ),
            i <= addresses@.len(),
            answers.len() == i,
            forall|j: int|
                0 <= j < i ==> call_ensures(resolve, (addresses@[j],), #[trigger] answers[j]),
            ordinals@ == resolved(answers),
            ordinals@.len() <= max_documents,
        decreases addresses@.len() - i,
    {
        let ghost before = answers;
        let answer = resolve(addresses[i]);
        proof {
            answers = answers.push(answer);
            assert(answers.drop_last() =~= before);
        }
        if let Some(ordinal) = answer {
            if ordinals.len() == max_documents {
                assert(resolved(answers).len() == max_documents + 1);
                return BoundedEligibleOrdinals::OverLimit;
            }
            ordinals.push(ordinal);
        }
        i += 1;
    }
    assert(ordinals@ == resolved(answers));
    BoundedEligibleOrdinals::WithinLimit(ordinals)
}

/// Rows that a database mask selects.
pub struct MaskEligibility<'a> {
    mask: &'a RowAddrMask,
}

impl<'a> MaskEligibility<'a> {
    #[verifier::type_invariant]
    spec fn inv(self) -> bool {
        self.mask.wf()
    }

    /// The mask that decides.
    pub closed spec fn mask(self) -> RowAddrMask {
        *self.mask
    }

    /// Lets a mask decide.
    pub fn new(mask: &'a RowAddrMask) -> (result: MaskEligibility<'a>)
        requires
            mask.wf(),
        ensures
            result.mask() == *mask,
    {
        MaskEligibility { mask }
    }
}

impl<'a> Eligibility for MaskEligibility<'a> {
    open spec fn admits(&self, document_ordinal: u32, row_address: u64) -> bool {
        self.mask().selects(row_address)
    }

    open spec fn countable(&self) -> bool {
        true
    }

    fn includes(&self, _document_ordinal: u32, row_address: u64) -> (result: bool) {
        proof {
            use_type_invariant(self);
        }
        self.mask.selected(row_address)
    }
}

/// How a segment is searched by probing.
#[derive(Debug)]
pub struct PlaidCandidatePlan {
    pub params: PlaidSearchParams,
    /// Documents of the segment that may be returned.
    pub eligible_documents: usize,
    /// Most probes for each query token.
    pub maximum_nprobes: usize,
    pub eligible_centroids: EligibleCentroidPlan,
    /// Time spent on the plan, in nanoseconds.
    pub total_plan_nanos: u64,
}

/// Most probes for each query token.
pub open spec fn probe_ceiling(segment: Segment, query: Query) -> nat {
    let centroids = segment.centroids.rows;
    at_least_both(
        match query.maximum_nprobes {
            Some(maximum) => smaller(maximum as nat, centroids),
            None => centroids,
        },
        1,
    )
}

/// Documents that a mask lists, where it lists its rows.
pub open spec fn listed_count(segment: Segment, mask: RowAddrMask) -> Option<nat> {
    match mask.listed() {
        Some(addresses) => Some(listed_ordinals(segment, addresses).len()),
        None => None,
    }
}

/// A quotient rounded up.
pub open spec fn rounded_up(total: nat, part: nat) -> nat {
    if total % part == 0 {
        total / part
    } else {
        total / part + 1
    }
}

/// Probes for each query token: at least eight, more where few documents are
/// eligible, and never more than the ceiling.
pub open spec fn planned_probes(segment: Segment, query: Query, mask: RowAddrMask) -> nat {
    let ceiling = probe_ceiling(segment, query);
    let base = at_least_both(
        smaller(at_least_both(query.minimum_nprobes as nat, 8), ceiling),
        1,
    );
    let factor = match listed_count(segment, mask) {
        Some(eligible) => if eligible > 0 {
            at_least_both(rounded_up(segment.documents(), eligible), 1)
        } else {
            1
        },
        None => 1,
    };
    at_least_both(smaller(base * factor, ceiling), 1)
}

/// What is known of the eligible documents before they are listed.
pub open spec fn counted_set(segment: Segment, mask: RowAddrMask) -> EligibleSet {
    EligibleSet {
        ordinals: None,
        count: listed_count(segment, mask),
        filtered: !mask.select_all(),
    }
}

/// What is known of the eligible documents when the plan is made: they are
/// listed only where the filter is narrow.
pub open spec fn planned_set(
    segment: Segment,
    mask: RowAddrMask,
    query_tokens: nat,
    probes: nat,
) -> EligibleSet {
    let counted = counted_set(segment, mask);
    if counted.filtered && counted.count is Some && counted.decision(segment, query_tokens, probes)
        == EligibleCentroidDecision::NonEnumerable {
        EligibleSet {
            ordinals: Some(listed_ordinals(segment, mask.listed()->0)),
            ..counted
        }
    } else {
        counted
    }
}

/// A plan is the one for a query and a mask. Nothing is said of the time that it
/// took.
pub open spec fn plans_candidates(
    segment: Segment,
    identity: u64,
    query: Query,
    requested_candidates: nat,
    query_tokens: nat,
    mask: RowAddrMask,
    plan: PlaidCandidatePlan,
) -> bool {
    let probes = planned_probes(segment, query, mask);
    let eligible = match listed_count(segment, mask) {
        Some(count) => count,
        None => segment.documents(),
    };
    &&& plan.eligible_documents == eligible
    &&& plan.maximum_nprobes == probe_ceiling(segment, query)
    &&& probes <= usize::MAX
    &&& plan.params == candidate_budgets(requested_candidates, eligible, probes as usize)
    &&& plan.eligible_centroids@ == plan_for(
        identity,
        segment,
        planned_set(segment, mask, query_tokens, probes),
        query_tokens,
        probes,
    )
    &&& plan.eligible_centroids@.belongs(identity, segment.centroids.rows)
}

/// Loaded database-native PLAID segment.
#[derive(Debug)]
pub struct PlaidVectorIndex {
    kernel: PlaidIndex,
}

impl View for PlaidVectorIndex {
    type V = Segment;

    closed spec fn view(&self) -> Segment {
        self.kernel@
    }
}

/// Counts of a segment.
#[derive(Clone, Copy, Debug, PartialEq, Eq, Structural)]
pub struct SegmentStatistics {
    pub documents: usize,
    pub tokens: usize,
    pub centroids: usize,
    pub dimension: usize,
    pub nbits: u8,
}

impl PlaidVectorIndex {
    /// The identity of the loaded segment.
    pub closed spec fn identity(&self) -> u64 {
        self.kernel.identity()
    }

    /// Serves a loaded segment.
    pub fn try_new(kernel: PlaidIndex) -> (result: PlaidVectorIndex)
        ensures
            result@ == kernel@,
            result.identity() == kernel.identity(),
            result@.wf(),
    {
        proof {
            use_type_invariant(&kernel);
        }
        PlaidVectorIndex { kernel }
    }

    /// The loaded segment.
    pub fn segment(&self) -> (result: &PlaidIndex)
        ensures
            result@ == self@,
            result.identity() == self.identity(),
            self@.wf(),
    {
        proof {
            use_type_invariant(&self.kernel);
        }
        &self.kernel
    }

    /// The documents of listed addresses.
    fn resolve_all(&self, addresses: &Vec<u64>) -> (result: Vec<u32>)
        ensures
            result@ == listed_ordinals(self@, addresses@),
    {
        let ghost answers = addresses@.map_values(|address: u64| self@.ordinal_of(address));
        let mut ordinals: Vec<u32> = Vec::new();
        let mut i: usize = 0;
        assert(answers.take(0) =~= Seq::<Option<u32>>::empty());
        while i < addresses.len()
            invariant
                answers == addresses@.map_values(|address: u64| self@.ordinal_of(address)),
                i <= addresses@.len(),
                ordinals@ == resolved(answers.take(i as int)),
            decreases addresses@.len() - i,
        {
            assert(answers.take(i + 1).drop_last() =~= answers.take(i as int));
            if let Some(ordinal) = self.kernel.document_ordinal(addresses[i]) {
                ordinals.push(ordinal);
            }
            i += 1;
        }
        assert(answers.take(i as int) =~= answers);
        ordinals
    }

    /// Counts the documents of listed addresses.
    fn count_listed(&self, addresses: &Vec<u64>) -> (result: usize)
        ensures
            result == listed_ordinals(self@, addresses@).len(),
            result <= addresses@.len(),
    {
        let ghost answers = addresses@.map_values(|address: u64| self@.ordinal_of(address));
        let mut count: usize = 0;
        let mut i: usize = 0;
        assert(answers.take(0) =~= Seq::<Option<u32>>::empty());
        while i < addresses.len()
            invariant
                answers == addresses@.map_values(|address: u64| self@.ordinal_of(address)),
                i <= addresses@.len(),
                count <= i,
                count == resolved(answers.take(i as int)).len(),
            decreases addresses@.len() - i,
        {
            assert(answers.take(i + 1).drop_last() =~= answers.take(i as int));
            if self.kernel.document_ordinal(addresses[i]).is_some() {
                count += 1;
            }
            i += 1;
        }
        assert(answers.take(i as int) =~= answers);
        count
    }

    /// Plans a search by probing.
    pub fn candidate_plan(
        &self,
        query: &Query,
        requested_candidates: usize,
        query_tokens: usize,
        mask: &RowAddrMask,
    ) -> (result: DatabaseResult<PlaidCandidatePlan>)
        requires
            mask.wf(),
        ensures
            result is Ok,
            plans_candidates(
                self@,
                self.identity(),
                *query,
                requested_candidates as nat,
                query_tokens as nat,
                *mask,
                result->Ok_0,
            ),
            (result->Ok_0).total_plan_nanos == 0,
    {
        proof {
            use_type_invariant(&self.kernel);
        }
        let num_centroids: usize = self.kernel.num_centroids();
        let num_documents: usize = self.kernel.num_documents();
        let ceiling: usize = match query.maximum_nprobes {
            Some(maximum) => if maximum == 0 {
                1
            } else if maximum < num_centroids {
                maximum
            } else {
                num_centroids
            },
            None => num_centroids,
        };
        assert(ceiling == probe_ceiling(self@, *query));
        let least: usize = if query.minimum_nprobes < 8 {
            8
        } else {
            query.minimum_nprobes
        };
        let base: usize = if least < ceiling {
            least
        } else {
            ceiling
        };
        let listed: Option<usize> = match mask.iter_addrs() {
            Some(addresses) => Some(self.count_listed(addresses)),
            None => None,
        };
        let eligible: usize = match listed {
            Some(count) => count,
            None => num_documents,
        };
        let factor: usize = match listed {
            Some(count) => if count > 0 {
                widening(num_documents, count)
            } else {
                1
            },
            None => 1,
        };
        let wide: u128 = widened(base, factor);
        let n_ivf_probe: usize = if wide < ceiling as u128 {
            wide as usize
        } else {
            ceiling
        };
        assert(n_ivf_probe == planned_probes(self@, *query, *mask)) by {
            assert(base >= 1 && factor >= 1);
            assert(base * factor >= 1) by (nonlinear_arith)
                requires
                    base >= 1,
                    factor >= 1,
            ;
        }
        let params = plaid_search_params(requested_candidates, eligible, n_ivf_probe);
        let filtered = !mask.is_select_all();
        let mut eligible_centroids = match self.kernel.plan_eligible_centroids(
            None,
            listed,
            filtered,
            query_tokens,
            n_ivf_probe,
        ) {
            Ok(plan) => plan,
            Err(error) => {
                return Err(plaid_error(error));
            },
        };
        assert(eligible_set(None, listed, filtered) == counted_set(self@, *mask));
        if filtered && listed.is_some() && eligible_centroids.decision()
            == EligibleCentroidDecision::NonEnumerable {
            if let Some(addresses) = mask.iter_addrs() {
                let ordinals = self.resolve_all(addresses);
                proof {
                    listed_ordinals_increase(self@, addresses@);
                }
                eligible_centroids =
                match self.kernel.plan_eligible_centroids(
                    Some(ordinals.as_slice()),
                    listed,
                    filtered,
                    query_tokens,
                    n_ivf_probe,
                ) {
                    Ok(plan) => plan,
                    Err(error) => {
                        return Err(plaid_error(error));
                    },
                };
            }
        }
        Ok(
            PlaidCandidatePlan {
                params,
                eligible_documents: eligible,
                maximum_nprobes: ceiling,
                eligible_centroids,
                total_plan_nanos: 0,
            },
        )
    }

    /// Maps a mask that lists its rows to at most `max_documents` documents of
    /// this segment, in order. Rows of other segments do not count.
    pub fn bounded_eligible_document_ordinals(&self, mask: &RowAddrMask, max_documents: usize) -> (result:
        BoundedEligibleOrdinals)
        ensures
            match result {
                BoundedEligibleOrdinals::NonEnumerable => mask.listed() is None,
                BoundedEligibleOrdinals::WithinLimit(ordinals) => mask.listed() is Some
                    && ordinals@ == listed_ordinals(self@, mask.listed()->0) && ordinals@.len()
                    <= max_documents,
                BoundedEligibleOrdinals::OverLimit => mask.listed() is Some && listed_ordinals(
                    self@,
                    mask.listed()->0,
                ).len() > max_documents,
            },
    {
        let addresses = match mask.iter_addrs() {
            Some(addresses) => addresses,
            None => {
                return BoundedEligibleOrdinals::NonEnumerable;
            },
        };
        let kernel = &self.kernel;
        let resolve = |address: u64| -> (answer: Option<u32>)
            ensures
                answer == kernel@.ordinal_of(address),
            { kernel.document_ordinal(address) };
        let result = collect_bounded_document_ordinals(
            addresses.as_slice(),
            max_documents,
            resolve,
        );
        proof {
            let all = addresses@.map_values(|address: u64| self@.ordinal_of(address));
            let answers = choose|answers: Seq<Option<u32>>|
                {
                    &&& answers.len() <= addresses@.len()
                    &&& forall|i: int|
                        0 <= i < answers.len() ==> call_ensures(
                            resolve,
                            (addresses@[i],),
                            #[trigger] answers[i],
                        )
                    &&& match result {
                        BoundedEligibleOrdinals::NonEnumerable => false,
                        BoundedEligibleOrdinals::WithinLimit(ordinals) => answers.len()
                            == addresses@.len() && ordinals@ == #[trigger] resolved(answers)
                            && ordinals@.len() <= max_documents,
                        BoundedEligibleOrdinals::OverLimit => answers.len() > 0 && answers.last()
                            is Some && resolved(answers).len() == max_documents + 1,
                    }
                };
            assert(answers =~= all.take(answers.len() as int));
            resolved_grows(all, answers.len() as int);
            assert(all.take(all.len() as int) =~= all);
        }
        result
    }

    /// Number of documents.
    pub fn num_documents(&self) -> (result: usize)
        ensures
            result == self@.documents(),
    {
        self.kernel.num_documents()
    }

    /// Returns every indexed row address that a mask selects.
    pub fn eligible_row_addresses(&self, mask: &RowAddrMask) -> (result: Vec<u64>)
        requires
            mask.wf(),
        ensures
            result@ == match mask.listed() {
                Some(addresses) => addresses.filter(
                    |address: u64| self@.row_addresses.contains(address),
                ),
                None => self@.row_addresses.filter(|address: u64| mask.selects(address)),
            },
    {
        let mut eligible: Vec<u64> = Vec::new();
        let mut i: usize = 0;
        match mask.iter_addrs() {
            Some(addresses) => {
                let ghost known = |address: u64| self@.row_addresses.contains(address);
                proof {
                    reveal(Seq::filter);
                }
                assert(addresses@.take(0) =~= Seq::<u64>::empty());
                while i < addresses.len()
                    invariant
                        known == (|address: u64| self@.row_addresses.contains(address)),
                        i <= addresses@.len(),
                        eligible@ == addresses@.take(i as int).filter(known),
                    decreases addresses@.len() - i,
                {
                    proof {
                        reveal(Seq::filter);
                        assert(addresses@.take(i + 1).drop_last() =~= addresses@.take(i as int));
                        assert(addresses@.take(i + 1).last() == addresses@[i as int]);
                    }
                    if self.kernel.document_ordinal(addresses[i]).is_some() {
                        eligible.push(addresses[i]);
                    }
                    i += 1;
                }
                assert(addresses@.take(i as int) =~= addresses@);
            },
            None => {
                let addresses = self.kernel.row_addresses();
                let ghost wanted = |address: u64| mask.selects(address);
                proof {
                    reveal(Seq::filter);
                }
                assert(addresses@.take(0) =~= Seq::<u64>::empty());
                while i < addresses.len()
                    invariant
                        mask.wf(),
                        wanted == (|address: u64| mask.selects(address)),
                        i <= addresses@.len(),
                        eligible@ == addresses@.take(i as int).filter(wanted),
                    decreases addresses@.len() - i,
                {
                    proof {
                        reveal(Seq::filter);
                        assert(addresses@.take(i + 1).drop_last() =~= addresses@.take(i as int));
                        assert(addresses@.take(i + 1).last() == addresses@[i as int]);
                    }
                    if mask.selected(addresses[i]) {
                        eligible.push(addresses[i]);
                    }
                    i += 1;
                }
                assert(addresses@.take(i as int) =~= addresses@);
            },
        }
        eligible
    }

    /// Counts of the segment.
    pub fn statistics(&self) -> (result: SegmentStatistics)
        ensures
            result.documents == self@.documents(),
            result.tokens == self@.tokens(),
            result.centroids == self@.centroids.rows,
            result.dimension == self@.dimension(),
            result.nbits == self@.codebook.nbits,
    {
        SegmentStatistics {
            documents: self.kernel.num_documents(),
            tokens: self.kernel.num_tokens(),
            centroids: self.kernel.num_centroids(),
            dimension: self.kernel.dimension(),
            nbits: self.kernel.quantizer().nbits(),
        }
    }

    /// The fragments that indexed rows belong to.
    pub fn calculate_included_frags(&self) -> (result: RoaringBitmap)
        ensures
            forall|fragment: u32| #[trigger]
                bitmap_values(result).contains(fragment) <==> exists|i: int|
                    0 <= i < self@.documents() && fragment_of(#[trigger] self@.row_addresses[i])
                        == fragment,
    {
        let addresses = self.kernel.row_addresses();
        let mut fragments = RoaringBitmap::new();
        let mut i: usize = 0;
        while i < addresses.len()
            invariant
                i <= addresses@.len(),
                forall|fragment: u32| #[trigger]
                    bitmap_values(fragments).contains(fragment) <==> exists|j: int|
                        0 <= j < i && fragment_of(#[trigger] addresses@[j]) == fragment,
            decreases addresses@.len() - i,
        {
            let ghost before = bitmap_values(fragments);
            let own: u32 = fragment_id(addresses[i]);
            let _added = fragments.insert(own);
            assert forall|fragment: u32| #[trigger]
                bitmap_values(fragments).contains(fragment) <==> exists|j: int|
                    0 <= j < i + 1 && fragment_of(#[trigger] addresses@[j]) == fragment by {
                if before.contains(fragment) {
                    let j = choose|j: int|
                        0 <= j < i && fragment_of(#[trigger] addresses@[j]) == fragment;
                    assert(fragment_of(addresses@[j]) == fragment);
                }
                if fragment == own {
                    assert(fragment_of(addresses@[i as int]) == fragment);
                }
            }
            i += 1;
        }
        fragments
    }

    /// How many documents a search by probing should find.
    pub fn desired_candidates(&self, plan: &PlaidCandidatePlan) -> (result: usize)
        ensures
            result == desired_count(self@, *plan),
    {
        let mut desired: usize = plan.eligible_documents;
        if plan.params.top_k < desired {
            desired = plan.params.top_k;
        }
        if self.kernel.num_documents() < desired {
            desired = self.kernel.num_documents();
        }
        desired
    }

    /// Searches by probing, as planned.
    pub fn search_candidates(
        &self,
        query: &Matrix,
        plan: &PlaidCandidatePlan,
        desired_candidates: usize,
        mask: &RowAddrMask,
        event: SearchEvent,
        stats: &mut PlaidSearchStats,
    ) -> (result: DatabaseResult<SearchAction>)
        requires
            mask.wf(),
            event_fits(self@, event),
            event is CentroidsScored ==> adaptive_fault(
                self@,
                self.identity(),
                query@,
                plan.params,
                Some(plan.eligible_centroids@),
            ) is None,
        ensures
            candidates_step(
                self@,
                self.identity(),
                query@,
                *plan,
                desired_candidates as nat,
                *mask,
                event,
                *old(stats),
                result,
                *final(stats),
            ),
    {
        let eligibility = MaskEligibility::new(mask);
        proof {
            if let SearchEvent::CentroidsScored(scores) = event {
                let own = visible(self@, eligibility);
                assert(own =~= mask_visible(self@, *mask));
            }
        }
        match self.kernel.search_adaptive(
            query,
            &plan.params,
            plan.maximum_nprobes,
            desired_candidates,
            &eligibility,
            Some(&plan.eligible_centroids),
            event,
            stats,
        ) {
            Ok(action) => Ok(action),
            Err(error) => Err(plaid_error(error)),
        }
    }

    /// Scores a known set of documents without probing. `None` means that one of
    /// them has no tokens, and that the segment must be probed instead.
    pub fn search_quantized_residuals(
        &self,
        query: &Matrix,
        document_ordinals: &[u32],
        event: SearchEvent,
        stats: &mut PlaidSearchStats,
    ) -> (result: DatabaseResult<Option<SearchAction>>)
        requires
            event_fits(self@, event),
            event is Started || event is DocumentsScored,
        ensures
            direct_step(
                self@,
                query@,
                document_ordinals@,
                event,
                *old(stats),
                result,
                *final(stats),
            ),
    {
        match self.kernel.search_quantized_residuals(query, document_ordinals, event, stats) {
            Ok(action) => Ok(action),
            Err(error) => Err(plaid_error(error)),
        }
    }

    /// Similarities that a search computed, for the statistics of the database.
    pub fn comparisons(stats: &PlaidSearchStats, query_tokens: usize) -> (result: usize)
        ensures
            result == smaller(
                smaller(stats.exact_documents as nat, usize::MAX as nat) * query_tokens as nat,
                usize::MAX as nat,
            ),
    {
        let documents: u128 = if stats.exact_documents as u128 > usize::MAX as u128 {
            usize::MAX as u128
        } else {
            stats.exact_documents as u128
        };
        proof {
            assert(documents * query_tokens <= u128::MAX) by (nonlinear_arith)
                requires
                    documents <= u64::MAX,
                    query_tokens <= u64::MAX,
            ;
        }
        let comparisons: u128 = documents * query_tokens as u128;
        if comparisons > usize::MAX as u128 {
            usize::MAX
        } else {
            comparisons as usize
        }
    }

    /// The best `k` hits.
    pub fn best_hits(hits: &Vec<SearchHit>, k: usize) -> (result: Vec<SearchHit>)
        ensures
            result@ == hits@.take(smaller(k as nat, hits@.len()) as int),
    {
        let mut best: Vec<SearchHit> = Vec::new();
        let mut i: usize = 0;
        while i < hits.len() && i < k
            invariant
                i <= hits@.len(),
                i <= k,
                best@ =~= hits@.take(i as int),
            decreases hits@.len() - i,
        {
            best.push(hits[i]);
            i += 1;
        }
        best
    }

    /// Checks the number of a partition: a segment is one partition.
    pub fn check_partition(partition_id: usize) -> (result: DatabaseResult<()>)
        ensures
            match result {
                Ok(()) => partition_id == 0,
                Err(error) => partition_id != 0 && error@ == Trouble::InvalidInput(
                    "PLAID exposes one logical partition, got "@ + decimal(partition_id as nat),
                ),
            },
    {
        if partition_id != 0 {
            return Err(
                DatabaseError::InvalidInput(
                    text_number("PLAID exposes one logical partition, got ", partition_id as u64),
                ),
            );
        }
        Ok(())
    }

    /// The partitions that a query looks at, with its distance to each: there is
    /// only one.
    pub fn find_partitions(&self) -> (result: (Vec<u32>, Vec<u32>))
        ensures
            result.0@ == seq![0u32],
            result.1@ == seq![0u32],
    {
        (vec![0], vec![0])
    }

    /// Number of partitions.
    pub fn total_partitions(&self) -> (result: usize)
        ensures
            result == 1,
    {
        1
    }

    /// Number of indexed rows.
    pub fn num_rows(&self) -> (result: u64)
        ensures
            result == self@.documents(),
    {
        let documents: usize = self.kernel.num_documents();
        documents as u64
    }

    /// The addresses of the indexed rows.
    pub fn row_ids(&self) -> (result: &[u64])
        ensures
            result@ == self@.row_addresses,
    {
        self.kernel.row_addresses()
    }

    /// Number of documents in a partition.
    pub fn partition_size(&self, part_id: usize) -> (result: usize)
        ensures
            result == if part_id == 0 {
                self@.documents()
            } else {
                0
            },
    {
        if part_id == 0 {
            self.kernel.num_documents()
        } else {
            0
        }
    }

    /// Refuses to load single partitions.
    pub fn load(&self) -> (result: DatabaseResult<PlaidVectorIndex>)
        ensures
            result is Err,
            result->Err_0@ == Trouble::NotSupported(
                "PLAID partition load is not supported; open the full versioned segment"@,
            ),
    {
        Err(
            DatabaseError::not_supported(
                "PLAID partition load is not supported; open the full versioned segment",
            ),
        )
    }

    /// Refuses to stream partitions.
    pub fn to_batch_stream(&self) -> (result: DatabaseResult<()>)
        ensures
            result is Err,
            result->Err_0@ == Trouble::NotSupported("PLAID does not expose IVF partition batches"@),
    {
        Err(DatabaseError::not_supported("PLAID does not expose IVF partition batches"))
    }

    /// Refuses to move rows.
    pub fn remap(&self) -> (result: DatabaseResult<()>)
        ensures
            result is Err,
            result->Err_0@ == Trouble::NotSupported(
                "PLAID stores physical row addresses and refuses in-place remapping; drop and rebuild the PLAID index"@,
            ),
    {
        Err(
            DatabaseError::not_supported(
                "PLAID stores physical row addresses and refuses in-place remapping; drop and rebuild the PLAID index",
            ),
        )
    }
}

/// How many documents a search by probing should find.
pub open spec fn desired_count(segment: Segment, plan: PlaidCandidatePlan) -> nat {
    smaller(
        smaller(plan.eligible_documents as nat, plan.params.top_k as nat),
        segment.documents(),
    )
}

/// One step of a search by probing, as planned: from what it is told and the
/// statistics so far to what it asks for and the statistics after.
pub open spec fn candidates_step(
    segment: Segment,
    identity: u64,
    query: Grid,
    plan: PlaidCandidatePlan,
    desired: nat,
    mask: RowAddrMask,
    event: SearchEvent,
    before: PlaidSearchStats,
    result: DatabaseResult<SearchAction>,
    after: PlaidSearchStats,
) -> bool {
    match event {
        SearchEvent::Started => {
            let fault = adaptive_fault(
                segment,
                identity,
                query,
                plan.params,
                Some(plan.eligible_centroids@),
            );
            &&& after == before
            &&& match result {
                Ok(action) => fault is None && action@ == if plans_nothing(
                    Some(plan.eligible_centroids@),
                ) {
                    Request::Finished(Seq::empty())
                } else {
                    Request::ScoreCentroids
                },
                Err(error) => fault is Some && error@ == kernel_trouble(fault->0),
            }
        },
        SearchEvent::CentroidsScored(scores) => {
            let probing = mask_probing(
                segment,
                scores@,
                plan.params,
                plan.maximum_nprobes as nat,
                desired,
                mask,
                plan.eligible_centroids@,
            );
            &&& result is Ok
            &&& result->Ok_0@ == Request::ScoreCandidates(
                adaptive_documents(
                    probing,
                    plan.params.n_ivf_probe as nat,
                ),
            )
            &&& after == stats_after_rounds(
                before,
                probing,
                plan.params.n_ivf_probe as nat,
            )
        },
        SearchEvent::CandidatesScored(scored) => {
            &&& result is Ok
            &&& result->Ok_0@ == Request::ScoreDocuments(
                shortlisted(segment, scored@, plan.params),
            )
            &&& after == PlaidSearchStats {
                approximate_documents: scored@.len() as u64,
                ..before
            }
        },
        SearchEvent::DocumentsScored(scored) => {
            &&& result is Ok
            &&& result->Ok_0@ == Request::Finished(final_hits(segment, scored@, plan.params))
            &&& after == PlaidSearchStats {
                exact_documents: scored@.len() as u64,
                ..before
            }
        },
    }
}

/// One step of a direct search over some documents.
pub open spec fn direct_step(
    segment: Segment,
    query: Grid,
    documents: Seq<u32>,
    event: SearchEvent,
    before: PlaidSearchStats,
    result: DatabaseResult<Option<SearchAction>>,
    after: PlaidSearchStats,
) -> bool {
    match event {
        SearchEvent::DocumentsScored(scored) => {
            &&& result is Ok
            &&& result->Ok_0 is Some
            &&& (result->Ok_0->0)@ == Request::Finished(ranked(segment, scored@))
            &&& after == PlaidSearchStats {
                candidate_documents: scored@.len() as u64,
                exact_documents: scored@.len() as u64,
                ..before
            }
        },
        _ => {
            let fault = direct_fault(segment, query, documents);
            &&& after == before
            &&& match result {
                Ok(Some(action)) => fault is None && all_have_tokens(
                    segment,
                    documents,
                ) && action@ == Request::ScoreDocuments(documents),
                Ok(None) => fault is None && !all_have_tokens(segment, documents),
                Err(error) => fault is Some && error@ == kernel_trouble(fault->0),
            }
        },
    }
}

/// The documents of a segment that a mask selects.
pub open spec fn mask_visible(segment: Segment, mask: RowAddrMask) -> spec_fn(u32) -> bool {
    |document: u32| mask.selects(segment.row_addresses[document as int])
}

/// Probing for the documents that a mask selects, as planned.
pub open spec fn mask_probing(
    segment: Segment,
    scores: Grid,
    params: PlaidSearchParams,
    maximum_nprobes: nat,
    desired: nat,
    mask: RowAddrMask,
    plan: CentroidPlan,
) -> Probing {
    Probing {
        segment,
        scores,
        allowed: allowed_centroids(segment, Some(plan)),
        threshold: params.centroid_score_threshold,
        wanted: mask_visible(segment, mask),
        ceiling: smaller(maximum_nprobes, segment.centroids.rows),
        desired,
    }
}

/// More answers resolve to more documents.
proof fn resolved_grows(answers: Seq<Option<u32>>, count: int)
    requires
        0 <= count <= answers.len(),
    ensures
        resolved(answers.take(count)).len() <= resolved(answers).len(),
    decreases answers.len() - count,
{
    if count == answers.len() {
        assert(answers.take(count) =~= answers);
    } else {
        resolved_grows(answers, count + 1);
        assert(answers.take(count + 1).drop_last() =~= answers.take(count));
    }
}

/// How much wider to probe when only a part of the documents is eligible.
fn widening(documents: usize, eligible: usize) -> (result: usize)
    requires
        eligible > 0,
    ensures
        result == at_least_both(rounded_up(documents as nat, eligible as nat), 1),
{
    let quotient: usize = documents / eligible;
    if documents % eligible == 0 {
        if quotient < 1 {
            1
        } else {
            quotient
        }
    } else {
        proof {
            assert(quotient < usize::MAX) by (nonlinear_arith)
                requires
                    eligible > 0,
                    documents <= usize::MAX,
                    quotient == documents / eligible,
                    documents % eligible != 0,
            ;
        }
        quotient + 1
    }
}

fn widened(base: usize, factor: usize) -> (result: u128)
    ensures
        result == base * factor,
{
    proof {
        assert(base * factor <= u128::MAX) by (nonlinear_arith)
            requires
                base <= u64::MAX,
                factor <= u64::MAX,
        ;
    }
    base as u128 * factor as u128
}

/// The trouble of a segment that its hints do not mark as PLAID.
pub open spec fn unmarked(uuid: Seq<char>) -> Trouble {
    Trouble::Index("index "@ + uuid + " is not marked as PLAID in persisted VectorIndexDetails"@)
}

/// Opens a segment that its hints mark as PLAID, from the bytes of its file.
pub fn open_plaid_index(
    uuid: &str,
    runtime_hint: Option<&str>,
    bytes: &[u8],
    ids: &mut InstanceIds,
) -> (result: DatabaseResult<PlaidVectorIndex>)
    ensures
        final(ids)@ == if marks_plaid(runtime_hint) {
            id_after_load(bytes@, old(ids)@)
        } else {
            old(ids)@
        },
        match result {
            Ok(index) => marks_plaid(runtime_hint) && file_fault(bytes@) is None && index@
                == decoded_segment(bytes@) && index.identity() == old(ids)@,
            Err(error) => if marks_plaid(runtime_hint) {
                file_fault(bytes@) is Some && error@ == kernel_trouble(file_fault(bytes@)->0)
            } else {
                error@ == unmarked(uuid@)
            },
        },
{
    if !is_plaid_index_metadata(runtime_hint) {
        let mut text = "index ".to_owned();
        text.push_str(uuid);
        text.push_str(" is not marked as PLAID in persisted VectorIndexDetails");
        return Err(DatabaseError::Index(text));
    }
    match PlaidIndex::read_from_bytes(bytes, ids) {
        Ok(index) => Ok(PlaidVectorIndex::try_new(index)),
        Err(error) => Err(plaid_error(error)),
    }
}

/// Why the values of a query are refused.
pub open spec fn query_trouble(values: Option<Seq<u32>>, null_count: nat, dimension: nat) -> Option<
    Trouble,
> {
    if values is None {
        Some(Trouble::InvalidInput("PLAID query must contain Float32 values"@))
    } else if (values->0).len() == 0 || (values->0).len() % dimension != 0 || null_count != 0 {
        Some(
            Trouble::InvalidInput(
                "PLAID query length "@ + decimal((values->0).len())
                    + " must be a positive multiple of dimension "@ + decimal(dimension)
                    + " without nulls"@,
            ),
        )
    } else if !all_finite(values->0) {
        Some(Trouble::InvalidInput("PLAID token vectors must be non-empty and finite"@))
    } else {
        None
    }
}

/// The tokens of a query, one row for each. Without values of the right type
/// there is none.
pub fn query_to_array(values: Option<&[u32]>, null_count: usize, dimension: usize) -> (result:
    DatabaseResult<Matrix>)
    requires
        dimension > 0,
    ensures
        ({
            let given = match values {
                Some(values) => Some(values@),
                None => None,
            };
            let trouble = query_trouble(given, null_count as nat, dimension as nat);
            match result {
                Ok(query) => trouble is None && query@ == (Grid {
                    rows: (given->0).len() / dimension as nat,
                    columns: dimension as nat,
                    values: given->0,
                }),
                Err(error) => trouble == Some(error@),
            }
        }),
{
    let values = match values {
        Some(values) => values,
        None => {
            return Err(DatabaseError::invalid_input("PLAID query must contain Float32 values"));
        },
    };
    if values.len() == 0 || values.len() % dimension != 0 || null_count != 0 {
        let mut text = text_two_numbers(
            "PLAID query length ",
            values.len() as u64,
            " must be a positive multiple of dimension ",
            dimension as u64,
        );
        text.push_str(" without nulls");
        return Err(DatabaseError::InvalidInput(text));
    }
    if !scalar::all_finite(values) {
        return Err(
            DatabaseError::invalid_input("PLAID token vectors must be non-empty and finite"),
        );
    }
    let rows: usize = values.len() / dimension;
    let mut copy: Vec<u32> = Vec::new();
    copy.extend_from_slice(values);
    assert(copy@ =~= values@);
    proof {
        assert(rows * dimension == values@.len()) by (nonlinear_arith)
            requires
                rows == values@.len() / dimension as nat,
                values@.len() % dimension as nat == 0,
                dimension > 0,
        ;
    }
    match Matrix::from_shape_vec(rows, dimension, copy) {
        Ok(query) => Ok(query),
        Err(error) => Err(plaid_error(error)),
    }
}

/// Of two numbers the larger one is below neither, and is one of them. A quotient
/// is rounded up to the first number of parts that covers the total.
pub proof fn bounds_are_the_larger_numbers(left: nat, right: nat)
    ensures
        at_least_both(left, right) >= left,
        at_least_both(left, right) >= right,
        at_least_both(left, right) == left || at_least_both(left, right) == right,
        right > 0 ==> rounded_up(left, right) * right >= left,
        right > 0 && left > 0 ==> (rounded_up(left, right) - 1) * right < left,
        right > 0 && left == 0 ==> rounded_up(left, right) == 0,
{
    if right > 0 {
        let quotient = left / right;
        let rest = left % right;
        assert(left == quotient * right + rest && rest < right && (left == 0 ==> quotient == 0))
            by (nonlinear_arith)
            requires
                right > 0,
                quotient == left / right,
                rest == left % right,
        ;
        assert((quotient + 1) * right == quotient * right + right && (quotient - 1) * right
            == quotient * right - right) by (nonlinear_arith);
    }
}

/// A search reconstructs as many documents as are asked for and at least 1024, but
/// not more than are eligible, and approximates at least 4096 and four times as
/// many as it may return. It sets no threshold.
pub proof fn budgets_cover_the_request(requested: nat, eligible: nat, n_ivf_probe: usize)
    requires
        requested <= usize::MAX,
        eligible <= usize::MAX,
    ensures
        ({
            let params = candidate_budgets(requested, eligible, n_ivf_probe);
            &&& params.top_k >= 1
            &&& params.top_k <= eligible || params.top_k == 1
            &&& params.top_k <= requested || params.top_k <= 1024
            &&& eligible > 0 ==> params.top_k == eligible || params.top_k >= requested
                && params.top_k >= 1024
            &&& params.n_full_scores >= 4096
            &&& params.n_full_scores >= 4 * params.top_k || params.n_full_scores == usize::MAX
            &&& params.n_full_scores == 4096 || params.n_full_scores <= 4 * params.top_k
            &&& params.n_ivf_probe == n_ivf_probe
            &&& params.centroid_score_threshold is None
        }),
{
}

/// A query token probes at least one centroid, at most all, and at most as many as
/// the query allows. Without a filter that lists its rows it probes at least eight
/// and at least as many as the query asks for, as far as those limits let it.
pub proof fn probes_stay_within_the_query(segment: Segment, query: Query, mask: RowAddrMask)
    requires
        segment.centroids.rows > 0,
    ensures
        ({
            let ceiling = probe_ceiling(segment, query);
            let probes = planned_probes(segment, query, mask);
            &&& 1 <= probes <= ceiling <= segment.centroids.rows
            &&& query.maximum_nprobes is Some ==> ceiling <= query.maximum_nprobes->0 || ceiling
                == 1
            &&& query.maximum_nprobes is None ==> ceiling == segment.centroids.rows
            &&& ceiling == segment.centroids.rows || query.maximum_nprobes is Some && (ceiling
                == query.maximum_nprobes->0 || query.maximum_nprobes->0 == 0)
            &&& probes < ceiling ==> probes >= 8 && probes >= query.minimum_nprobes
            &&& mask.listed() is None ==> probes == 1 || probes <= 8 || probes
                <= query.minimum_nprobes
        }),
{
    let ceiling = probe_ceiling(segment, query);
    let base = at_least_both(
        smaller(at_least_both(query.minimum_nprobes as nat, 8), ceiling),
        1,
    );
    if listed_count(segment, mask) is Some && listed_count(segment, mask)->0 > 0 {
        let factor = at_least_both(
            rounded_up(segment.documents(), listed_count(segment, mask)->0),
            1,
        );
        assert(base * factor >= base) by (nonlinear_arith)
            requires
                factor >= 1,
        ;
    }
}

/// Where a filter lists few documents, the probes grow as the share of eligible
/// documents shrinks: they are the probes for all documents times the number of
/// documents for each eligible one, rounded up, unless they reach the ceiling.
pub proof fn probes_grow_for_narrow_filters(
    segment: Segment,
    query: Query,
    mask: RowAddrMask,
    unlisted: RowAddrMask,
    eligible: nat,
)
    requires
        segment.wf(),
        mask.listed() is Some,
        eligible == listed_ordinals(segment, mask.listed()->0).len(),
        unlisted.listed() is None,
    ensures
        ({
            let base = planned_probes(segment, query, unlisted);
            let probes = planned_probes(segment, query, mask);
            &&& eligible == 0 ==> probes == base
            &&& eligible > 0 && probes < probe_ceiling(segment, query) ==> probes * eligible >= base
                * segment.row_addresses.len()
            &&& eligible > 0 ==> base <= probes
            &&& eligible > 0 ==> probes == base || (probes - base) * eligible < base
                * segment.row_addresses.len()
        }),
{
    let documents = segment.documents();
    let base = at_least_both(
        smaller(at_least_both(query.minimum_nprobes as nat, 8), probe_ceiling(segment, query)),
        1,
    );
    if eligible > 0 {
        let quotient = rounded_up(documents, eligible);
        let factor = at_least_both(quotient, 1);
        bounds_are_the_larger_numbers(documents, eligible);
        assert(base * factor >= base) by (nonlinear_arith)
            requires
                factor >= 1,
        ;
        assert((base * factor) * eligible >= base * documents) by (nonlinear_arith)
            requires
                factor >= quotient,
                quotient * eligible >= documents,
        ;
        if factor > 1 {
            assert((base * factor - base) * eligible < base * documents) by (nonlinear_arith)
                requires
                    base >= 1,
                    (factor - 1) * eligible < documents,
            ;
            let probes = planned_probes(segment, query, mask);
            assert((probes - base) * eligible <= (base * factor - base) * eligible)
                by (nonlinear_arith)
                requires
                    probes <= base * factor,
                    eligible >= 0,
            ;
        } else {
            assert(base * factor == base) by (nonlinear_arith)
                requires
                    factor == 1,
            ;
        }
    }
}

/// Every listed address of the segment gives its document.
pub proof fn listed_ordinals_miss_nothing(segment: Segment, addresses: Seq<u64>, place: int)
    requires
        segment.wf(),
        0 <= place < addresses.len(),
    ensures
        forall|document: int|
            0 <= document < segment.row_addresses.len()
                && #[trigger] segment.row_addresses[document] == addresses[place]
                ==> listed_ordinals(segment, addresses).contains(document as u32),
    decreases addresses.len(),
{
    let list = listed_ordinals(segment, addresses);
    let answers = addresses.map_values(|address: u64| segment.ordinal_of(address));
    let shorter = addresses.drop_last();
    let earlier = listed_ordinals(segment, shorter);
    assert(answers.drop_last() =~= shorter.map_values(
        |address: u64| segment.ordinal_of(address),
    ));
    assert(answers.last() == segment.ordinal_of(addresses.last()));
    if place < shorter.len() {
        listed_ordinals_miss_nothing(segment, shorter, place);
    }
    assert forall|document: int|
        0 <= document < segment.row_addresses.len() && #[trigger] segment.row_addresses[document]
            == addresses[place] implies list.contains(document as u32) by {
        if place < shorter.len() {
            assert(shorter[place] == addresses[place]);
            let k = choose|k: int| 0 <= k < earlier.len() && earlier[k] == document as u32;
            assert(list[k] == document as u32);
        } else {
            addresses_resolve_to_their_ordinals(segment, document as u32);
            assert(list[list.len() - 1] == document as u32);
        }
    }
}

/// A listed document is in the segment, and its address is one of those listed.
pub proof fn listed_ordinals_have_listed_addresses(
    segment: Segment,
    addresses: Seq<u64>,
    place: int,
)
    requires
        segment.wf(),
        0 <= place < listed_ordinals(segment, addresses).len(),
    ensures
        listed_ordinals(segment, addresses)[place] < segment.row_addresses.len(),
        addresses.contains(
            segment.row_addresses[listed_ordinals(segment, addresses)[place] as int],
        ),
{
    listed_ordinals_are_of_addresses(segment, addresses);
    let document = listed_ordinals(segment, addresses)[place];
    let k = choose|k: int|
        0 <= k < addresses.len() && segment.ordinal_of(#[trigger] addresses[k]) == Some(document);
    ordinals_resolve_to_their_addresses(segment, addresses[k]);
    assert(addresses[k] == segment.row_addresses[document as int]);
}

/// A plan restricts probing to eligible centroids exactly where the mask lists its
/// rows, some but at most one in 32 of the documents are among them, and reading
/// four posting entries for each of their tokens would read no more than an
/// average query reads.
pub proof fn narrow_masks_restrict_probing(
    segment: Segment,
    identity: u64,
    query: Query,
    requested_candidates: nat,
    query_tokens: nat,
    mask: RowAddrMask,
    plan: PlaidCandidatePlan,
    probed: nat,
)
    requires
        segment.wf(),
        plans_candidates(
            segment,
            identity,
            query,
            requested_candidates,
            query_tokens,
            mask,
            plan,
        ),
        probed <= query_tokens * plan.params.n_ivf_probe,
        probed <= segment.centroids.rows,
        probed == query_tokens * plan.params.n_ivf_probe || probed == segment.centroids.rows,
    ensures
        plan.eligible_centroids@.decision == EligibleCentroidDecision::Enabled <==> {
            &&& !mask.select_all()
            &&& mask.listed() is Some
            &&& {
                let list = listed_ordinals(segment, mask.listed()->0);
                let eligible = EligibleSet { ordinals: Some(list), count: None, filtered: true };
                &&& 0 < 32 * list.len() <= segment.row_addresses.len()
                &&& 4 * eligible.tokens(segment) * segment.centroids.rows <= segment.postings.len()
                    * probed
            }
        },
        mask.listed() is Some ==> plan.eligible_documents == listed_ordinals(
            segment,
            mask.listed()->0,
        ).len(),
        mask.listed() is None ==> plan.eligible_documents == segment.row_addresses.len(),
{
    let probes = planned_probes(segment, query, mask);
    let counted = counted_set(segment, mask);
    let planned = planned_set(segment, mask, query_tokens, probes);
    narrow_filters_restrict_probing(counted, segment, query_tokens, probes, probed);
    narrow_filters_restrict_probing(planned, segment, query_tokens, probes, probed);
}

/// A search by probing stops at as many documents as it may return, but never waits
/// for more than are eligible or than there are.
pub proof fn desired_documents_can_be_found(segment: Segment, plan: PlaidCandidatePlan)
    ensures
        ({
            let desired = desired_count(segment, plan);
            &&& desired <= plan.eligible_documents
            &&& desired <= plan.params.top_k
            &&& desired <= segment.row_addresses.len()
            &&& desired == plan.eligible_documents || desired == plan.params.top_k || desired
                == segment.row_addresses.len()
        }),
{
}

/// A mask decides by the address of a document whether it may be returned.
pub proof fn masks_decide_by_address(segment: Segment, mask: RowAddrMask, document: u32)
    ensures
        mask_visible(segment, mask)(document) == mask.selects(
            segment.row_addresses[document as int],
        ),
{
}

/// An index is marked as PLAID by the four letters of `true`, each of which may be
/// upper-case or lower-case.
pub proof fn only_true_marks_plaid(runtime_hint: Option<&str>)
    ensures
        marks_plaid(runtime_hint) <==> {
            &&& runtime_hint is Some
            &&& (runtime_hint->0)@.len() == 4
            &&& (runtime_hint->0)@[0] == 't' || (runtime_hint->0)@[0] == 'T'
            &&& (runtime_hint->0)@[1] == 'r' || (runtime_hint->0)@[1] == 'R'
            &&& (runtime_hint->0)@[2] == 'u' || (runtime_hint->0)@[2] == 'U'
            &&& (runtime_hint->0)@[3] == 'e' || (runtime_hint->0)@[3] == 'E'
        },
{
    reveal_strlit("true");
    if let Some(value) = runtime_hint {
        let text = value@;
        assert(lowercase(text).len() == text.len());
        assert(lowercase("true"@) =~= "true"@);
        assert("true"@.len() == 4);
        if lowercase(text) == "true"@ {
            assert(text.len() == 4);
            assert(lowercase(text)[0] == lowered(text[0]));
            assert(lowercase(text)[1] == lowered(text[1]));
            assert(lowercase(text)[2] == lowered(text[2]));
            assert(lowercase(text)[3] == lowered(text[3]));
            assert(lowercase(text)[0] == 't');
            assert(lowercase(text)[1] == 'r');
            assert(lowercase(text)[2] == 'u');
            assert(lowercase(text)[3] == 'e');
        }
        assert(lowered('T') == 't' && lowered('R') == 'r' && lowered('U') == 'u' && lowered('E')
            == 'e');
        if text.len() == 4 && lowered(text[0]) == 't' && lowered(text[1]) == 'r' && lowered(text[2])
            == 'u' && lowered(text[3]) == 'e' {
            assert(lowercase(text) =~= "true"@);
        }
    }
}

/// A query is accepted exactly where it has values, these make up whole tokens,
/// none is missing and all are finite.
pub proof fn accepted_queries_hold_whole_tokens(
    values: Option<Seq<u32>>,
    null_count: nat,
    dimension: nat,
)
    requires
        dimension > 0,
    ensures
        query_trouble(values, null_count, dimension) is None <==> {
            &&& values is Some
            &&& (values->0).len() > 0
            &&& (values->0).len() % dimension == 0
            &&& null_count == 0
            &&& forall|i: int|
                0 <= i < (values->0).len() ==> (#[trigger] (values->0)[i] as int / 0x80_0000) % 256
                    != 255
        },
{
    if let Some(list) = values {
        if all_finite(list) {
            assert forall|i: int| 0 <= i < list.len() implies (#[trigger] list[i] as int
                / 0x80_0000) % 256 != 255 by {
                scalar::exponents_tell_finite_numbers(list[i]);
            }
        }
        if forall|i: int|
            0 <= i < list.len() ==> (#[trigger] list[i] as int / 0x80_0000) % 256 != 255 {
            assert forall|i: int| 0 <= i < list.len() implies scalar::finite(
                #[trigger] list[i],
            ) by {
                scalar::exponents_tell_finite_numbers(list[i]);
            }
        }
    }
}

/// Parameters are accepted exactly where training may take at least one iteration
/// and one sample, and residuals take two or four bits.
pub proof fn accepted_parameters_can_train(params: PlaidIndexParams)
    ensures
        params.trouble() is None <==> params.max_iterations >= 1 && params.sample_rate >= 1 && (
        params.nbits == 2 || params.nbits == 4),
{
}

/// A search as planned probes for the documents that its mask selects, among the
/// centroids that its plan allows, up to as many as it may and there are.
pub proof fn planned_searches_probe_as_planned(
    segment: Segment,
    scores: Grid,
    params: PlaidSearchParams,
    maximum_nprobes: nat,
    desired: nat,
    mask: RowAddrMask,
    plan: CentroidPlan,
    document: u32,
)
    ensures
        ({
            let probing = mask_probing(
                segment,
                scores,
                params,
                maximum_nprobes,
                desired,
                mask,
                plan,
            );
            &&& probing.segment == segment
            &&& probing.scores == scores
            &&& probing.threshold == params.centroid_score_threshold
            &&& probing.desired == desired
            &&& (probing.wanted)(document) == mask.selects(segment.row_addresses[document as int])
            &&& probing.ceiling <= maximum_nprobes
            &&& probing.ceiling <= segment.centroids.rows
            &&& probing.ceiling == maximum_nprobes || probing.ceiling == segment.centroids.rows
            &&& plan.decision == EligibleCentroidDecision::Enabled ==> probing.allowed
                == plan.centroids
            &&& plan.decision != EligibleCentroidDecision::Enabled ==> probing.allowed.len()
                == segment.centroids.rows
        }),
{
}

/// Each step of a search as planned asks for what comes next: scores of the
/// centroids, of the documents found, and of the best of these. A plan without
/// eligible documents ends at once. Each step that takes in scores counts them.
pub proof fn searches_go_step_by_step(
    segment: Segment,
    identity: u64,
    query: Grid,
    plan: PlaidCandidatePlan,
    desired: nat,
    mask: RowAddrMask,
    event: SearchEvent,
    before: PlaidSearchStats,
    action: SearchAction,
    after: PlaidSearchStats,
)
    requires
        candidates_step(
            segment,
            identity,
            query,
            plan,
            desired,
            mask,
            event,
            before,
            Ok(action),
            after,
        ),
    ensures
        match event {
            SearchEvent::Started => after == before && if plan.eligible_centroids@.decision
                == EligibleCentroidDecision::Empty {
                action@ == Request::Finished(Seq::empty())
            } else {
                action@ == Request::ScoreCentroids
            },
            SearchEvent::CentroidsScored(_) => action@ is ScoreCandidates,
            SearchEvent::CandidatesScored(scored) => action@ is ScoreDocuments && (scored@.len()
                <= u64::MAX ==> after.approximate_documents == scored@.len())
                && after.exact_documents == before.exact_documents,
            SearchEvent::DocumentsScored(scored) => action@ is Finished && (scored@.len()
                <= u64::MAX ==> after.exact_documents == scored@.len())
                && after.approximate_documents == before.approximate_documents,
        },
{
}

/// The hints of a built index mark it as PLAID, and say which format it has, how many
/// bits it takes, how many centroids were asked for and what its training draws from.
pub proof fn built_indexes_are_marked(params: PlaidIndexParams)
    ensures
        hints_for(params).len() == 5,
        hints_for(params)[0] == ("lance.plaid"@, "true"@),
        hints_for(params)[1] == ("lance.plaid.format_version"@, "1"@),
        hints_for(params)[2] == ("lance.plaid.nbits"@, decimal(params.nbits as nat)),
        hints_for(params)[3].0 == "lance.plaid.num_centroids"@,
        params.num_centroids == 0 ==> hints_for(params)[3].1 == "auto"@,
        params.num_centroids > 0 ==> hints_for(params)[3].1 == decimal(
            params.num_centroids as nat,
        ),
        hints_for(params)[4] == ("lance.plaid.training_seed"@, decimal(42)),
{
}

/// Upper-case letters stand 32 places before the lower-case ones, and no other
/// character has another case.
pub proof fn letters_have_two_cases(character: char)
    ensures
        65 <= character as int <= 90 ==> lowered(character) as int == character as int + 32,
        !(65 <= character as int <= 90) ==> lowered(character) == character,
{
}

} // verus!
