//! Probing in rounds, and probing only where eligible documents are.

use crate::bitmap::{bitmap_to_vec, bitmap_values};
use crate::eligibility::Eligibility;
use crate::error::{Error, Fault, Result};
use crate::index::{all_below, PlaidIndex, Segment};
use crate::matrix::{Grid, Matrix};
use crate::postings::strictly_increasing;
use crate::search::{
    all_centroids, best_centroids, candidates, candidates_are_posted_and_visible, capped,
    count_where, entries_eligible, entries_read, every_centroid, in_order, in_order_lists_the_set,
    in_order_of_increasing, increasing_has_set_len, posted_documents_exist, probes,
    probes_are_best_allowed, queries_probe_for_every_token, scored_centroids, select_centroids,
    smaller, token_probes, total, visible, PlaidSearchParams, PlaidSearchStats, RankedCentroid,
};
use crate::sort::ascending_is_sorted_permutation;
use roaring::RoaringBitmap;
use vstd::prelude::*;

verus! {

/// An eligible set may hold at most one document in this many.
pub const SELECTIVITY_FACTOR: u64 = 32;

/// Scanning one eligible token is taken to cost as much as reading this many
/// posting entries.
pub const SCAN_COST_FACTOR: u64 = 4;

/// Why probing was or was not restricted to eligible centroids.
#[derive(Clone, Copy, Debug, PartialEq, Eq, Structural)]
pub enum EligibleCentroidDecision {
    /// The query has no filter.
    Unfiltered,
    /// The eligible documents are not known one by one.
    NonEnumerable,
    /// No document is eligible.
    Empty,
    /// Probing is restricted to the centroids of eligible documents.
    Enabled,
    /// Too many documents are eligible.
    TooWide,
    /// Scanning the eligible tokens would cost more than it can save.
    ScanCostTooHigh,
}

/// What is known of the eligible documents of a segment.
pub struct EligibleSet {
    /// The eligible documents, where they are known one by one.
    pub ordinals: Option<Seq<u32>>,
    /// How many documents are eligible, where that is known.
    pub count: Option<nat>,
    /// The query has a filter.
    pub filtered: bool,
}

impl EligibleSet {
    /// How many documents are eligible, as far as that is known.
    pub open spec fn documents(self) -> Option<nat> {
        match self.ordinals {
            Some(ordinals) => Some(ordinals.len()),
            None => self.count,
        }
    }

    /// Why the eligible documents are refused.
    pub open spec fn fault(self, segment: Segment) -> Option<Fault> {
        if !self.filtered || self.ordinals is None {
            None
        } else {
            ordinals_fault(segment, self.ordinals->0)
        }
    }

    /// Tokens of the eligible documents.
    pub open spec fn tokens(self, segment: Segment) -> nat {
        match self.ordinals {
            Some(ordinals) => total(ordinals, |document: u32| document_len(segment, document)),
            None => 0,
        }
    }

    /// What is decided for a query of some tokens that each probe some centroids.
    pub open spec fn decision(
        self,
        segment: Segment,
        query_tokens: nat,
        n_ivf_probe: nat,
    ) -> EligibleCentroidDecision {
        if !self.filtered {
            EligibleCentroidDecision::Unfiltered
        } else if self.documents() is None {
            EligibleCentroidDecision::NonEnumerable
        } else if self.documents()->0 == 0 {
            EligibleCentroidDecision::Empty
        } else if self.documents()->0 * SELECTIVITY_FACTOR > segment.documents() {
            EligibleCentroidDecision::TooWide
        } else if self.ordinals is None {
            EligibleCentroidDecision::NonEnumerable
        } else if self.tokens(segment) * SCAN_COST_FACTOR > estimated_postings(
            segment,
            query_tokens,
            n_ivf_probe,
        ) {
            EligibleCentroidDecision::ScanCostTooHigh
        } else {
            EligibleCentroidDecision::Enabled
        }
    }

    /// The centroids of the eligible documents' tokens.
    pub open spec fn centroids(self, segment: Segment) -> Set<u32> {
        Set::new(
            |code: u32|
                exists|i: int|
                    0 <= i < (self.ordinals->0).len() && #[trigger] segment.codes_of(
                        (self.ordinals->0)[i] as int,
                    ).contains(code),
        )
    }
}

/// Why a list of documents is refused.
pub open spec fn ordinals_fault(segment: Segment, ordinals: Seq<u32>) -> Option<Fault> {
    if !strictly_increasing(ordinals) {
        Some(Fault::InvalidInput("document ordinals must be sorted and unique"@))
    } else if ordinals.len() > 0 {
        segment.ordinal_fault(ordinals.last())
    } else {
        None
    }
}

/// Number of tokens of a document.
pub open spec fn document_len(segment: Segment, document: u32) -> nat {
    segment.codes_of(document as int).len()
}

/// Posting entries that a query is expected to read when it probes all
/// centroids alike: the average over the centroids.
pub open spec fn estimated_postings(segment: Segment, query_tokens: nat, n_ivf_probe: nat) -> nat {
    segment.postings.len() * smaller(query_tokens * n_ivf_probe, segment.centroids.rows)
        / segment.centroids.rows
}

/// Whether and how probing is restricted to the centroids of eligible documents.
#[derive(Debug)]
pub struct EligibleCentroidPlan {
    owner: u64,
    decision: EligibleCentroidDecision,
    eligible_documents: u64,
    eligible_tokens: u64,
    eligible_token_codes_scanned: u64,
    centroids: Vec<u32>,
    estimated_global_postings: u64,
    core_build_nanos: u64,
}

/// A plan as a mathematical object.
#[verifier::ext_equal]
pub struct CentroidPlan {
    pub owner: u64,
    pub decision: EligibleCentroidDecision,
    pub eligible_documents: u64,
    pub eligible_tokens: u64,
    pub eligible_token_codes_scanned: u64,
    pub centroids: Seq<u32>,
    pub estimated_global_postings: u64,
    pub core_build_nanos: u64,
}

impl View for EligibleCentroidPlan {
    type V = CentroidPlan;

    closed spec fn view(&self) -> CentroidPlan {
        CentroidPlan {
            owner: self.owner,
            decision: self.decision,
            eligible_documents: self.eligible_documents,
            eligible_tokens: self.eligible_tokens,
            eligible_token_codes_scanned: self.eligible_token_codes_scanned,
            centroids: self.centroids@,
            estimated_global_postings: self.estimated_global_postings,
            core_build_nanos: self.core_build_nanos,
        }
    }
}

/// The plan for an eligible set.
pub open spec fn plan_for(
    owner: u64,
    segment: Segment,
    eligible: EligibleSet,
    query_tokens: nat,
    n_ivf_probe: nat,
) -> CentroidPlan {
    let decision = eligible.decision(segment, query_tokens, n_ivf_probe);
    let enabled = decision == EligibleCentroidDecision::Enabled;
    let scanned_tokens = enabled || decision == EligibleCentroidDecision::ScanCostTooHigh;
    CentroidPlan {
        owner,
        decision,
        eligible_documents: if eligible.filtered && eligible.documents() is Some {
            eligible.documents()->0 as u64
        } else {
            0
        },
        eligible_tokens: if scanned_tokens {
            eligible.tokens(segment) as u64
        } else {
            0
        },
        eligible_token_codes_scanned: if enabled {
            eligible.tokens(segment) as u64
        } else {
            0
        },
        centroids: if enabled {
            in_order(eligible.centroids(segment))
        } else {
            Seq::empty()
        },
        estimated_global_postings: estimated_postings(segment, query_tokens, n_ivf_probe) as u64,
        core_build_nanos: 0,
    }
}

impl CentroidPlan {
    /// Probing follows the plan.
    pub open spec fn enabled(self) -> bool {
        self.decision == EligibleCentroidDecision::Enabled || self.decision
            == EligibleCentroidDecision::Empty
    }

    /// The plan was made by an index instance with an identity and a number of
    /// centroids.
    pub open spec fn belongs(self, identity: u64, centroids: nat) -> bool {
        self.owner == identity && all_below(self.centroids, centroids)
    }
}

impl EligibleCentroidPlan {
    /// The decision that was made.
    pub fn decision(&self) -> (result: EligibleCentroidDecision)
        ensures
            result == self@.decision,
    {
        self.decision
    }

    /// Whether probing follows the plan.
    pub fn is_enabled(&self) -> (result: bool)
        ensures
            result == self@.enabled(),
    {
        self.decision == EligibleCentroidDecision::Enabled || self.decision
            == EligibleCentroidDecision::Empty
    }

    /// Number of eligible documents, or zero where it is not known.
    pub fn eligible_documents(&self) -> (result: u64)
        ensures
            result == self@.eligible_documents,
    {
        self.eligible_documents
    }

    /// Number of eligible tokens, or zero where they were not counted.
    pub fn eligible_tokens(&self) -> (result: u64)
        ensures
            result == self@.eligible_tokens,
    {
        self.eligible_tokens
    }

    /// Number of token codes that were read to find the eligible centroids.
    pub fn eligible_token_codes_scanned(&self) -> (result: u64)
        ensures
            result == self@.eligible_token_codes_scanned,
    {
        self.eligible_token_codes_scanned
    }

    /// Number of eligible centroids.
    pub fn eligible_centroids(&self) -> (result: u64)
        ensures
            result == self@.centroids.len() as u64,
    {
        self.centroids.len() as u64
    }

    /// Posting entries that probing all centroids alike is expected to read.
    pub fn estimated_global_postings(&self) -> (result: u64)
        ensures
            result == self@.estimated_global_postings,
    {
        self.estimated_global_postings
    }

    /// Time spent on the plan, in nanoseconds.
    pub fn core_build_nanos(&self) -> (result: u64)
        ensures
            result == self@.core_build_nanos,
    {
        self.core_build_nanos
    }

    /// Notes the time spent on the plan.
    pub fn set_core_build_nanos(&mut self, nanos: u64)
        ensures
            final(self)@ == (CentroidPlan { core_build_nanos: nanos, ..old(self)@ }),
    {
        self.core_build_nanos = nanos;
    }

    pub(crate) fn belongs_to(&self, index: &PlaidIndex) -> (result: bool)
        ensures
            result == self@.belongs(index.identity(), index@.centroids.rows),
    {
        if self.owner != index.instance_id() {
            return false;
        }
        let num_centroids: usize = index.num_centroids();
        let mut i: usize = 0;
        while i < self.centroids.len()
            invariant
                i <= self@.centroids.len(),
                num_centroids == index@.centroids.rows,
                forall|j: int| 0 <= j < i ==> #[trigger] self@.centroids[j] < num_centroids,
            decreases self@.centroids.len() - i,
        {
            if self.centroids[i] as usize >= num_centroids {
                return false;
            }
            i += 1;
        }
        true
    }
}

/// Whether a list of documents is sorted and unique.
fn is_strictly_increasing(values: &[u32]) -> (result: bool)
    ensures
        result == strictly_increasing(values@),
{
    let mut i: usize = 1;
    while i < values.len()
        invariant
            1 <= i,
            i <= values@.len() || values@.len() == 0,
            forall|a: int, b: int|
                0 <= a < b < i && b < values@.len() ==> #[trigger] values@[a] < #[trigger] values@[b],
        decreases values@.len() - i,
    {
        if values[i - 1] >= values[i] {
            return false;
        }
        assert forall|a: int, b: int| 0 <= a < b < i + 1 implies #[trigger] values@[a]
            < #[trigger] values@[b] by {
            if b == i && a < i - 1 {
                assert(values@[a] < values@[i - 1]);
            }
        }
        i += 1;
    }
    true
}

/// The eligible set that a caller describes.
pub open spec fn eligible_set(
    ordinals: Option<&[u32]>,
    count: Option<usize>,
    filtered: bool,
) -> EligibleSet {
    EligibleSet {
        ordinals: match ordinals {
            Some(ordinals) => Some(ordinals@),
            None => None,
        },
        count: match count {
            Some(count) => Some(count as nat),
            None => None,
        },
        filtered,
    }
}

impl PlaidIndex {
    /// Checks that a list of documents is sorted, unique and in the segment.
    pub(crate) fn validate_ordinals(&self, ordinals: &[u32]) -> (result: Result<()>)
        ensures
            match result {
                Ok(()) => ordinals_fault(self@, ordinals@) is None,
                Err(error) => ordinals_fault(self@, ordinals@) == Some(error@),
            },
    {
        if !is_strictly_increasing(ordinals) {
            return Err(Error::invalid("document ordinals must be sorted and unique"));
        }
        if ordinals.len() > 0 {
            let _range = self.document_token_range(ordinals[ordinals.len() - 1])?;
        }
        Ok(())
    }

    /// Counts the tokens of some documents.
    fn count_tokens(&self, ordinals: &[u32]) -> (result: u64)
        requires
            ordinals_fault(self@, ordinals@) is None,
        ensures
            result == total(ordinals@, |document: u32| document_len(self@, document)),
            result <= self@.tokens(),
    {
        proof {
            use_type_invariant(self);
        }
        let ghost weight = |document: u32| document_len(self@, document);
        let mut tokens: u64 = 0;
        let mut i: usize = 0;
        assert(ordinals@.take(0) =~= Seq::<u32>::empty());
        while i < ordinals.len()
            invariant
                self@.wf(),
                weight == (|document: u32| document_len(self@, document)),
                ordinals_fault(self@, ordinals@) is None,
                i <= ordinals@.len(),
                tokens == total(ordinals@.take(i as int), weight),
                i == 0 ==> tokens == 0,
                i > 0 ==> tokens <= self@.document_end(ordinals@[i - 1] as int),
                tokens <= self@.tokens(),
            decreases ordinals@.len() - i,
        {
            let document: u32 = ordinals[i];
            proof {
                if i < ordinals@.len() - 1 {
                    assert(ordinals@[i as int] < ordinals@[ordinals@.len() - 1]);
                }
                if i > 0 {
                    assert(ordinals@[i - 1] < ordinals@[i as int]);
                    assert(self@.document_offsets[ordinals@[i - 1] + 1]
                        <= self@.document_offsets[document as int]);
                }
            }
            let range = self.document_token_range(document);
            if let Ok((start, end)) = range {
                tokens = tokens + (end - start) as u64;
            }
            assert(ordinals@.take(i + 1).drop_last() =~= ordinals@.take(i as int));
            i += 1;
        }
        assert(ordinals@.take(i as int) =~= ordinals@);
        tokens
    }

    /// Collects the centroids of some documents' tokens.
    fn collect_centroids(&self, ordinals: &[u32]) -> (result: Vec<u32>)
        requires
            ordinals_fault(self@, ordinals@) is None,
        ensures
            result@ == in_order(
                (EligibleSet { ordinals: Some(ordinals@), count: None, filtered: true }).centroids(
                    self@,
                ),
            ),
            all_below(result@, self@.centroids.rows),
    {
        proof {
            use_type_invariant(self);
        }
        let ghost goal = EligibleSet { ordinals: Some(ordinals@), count: None, filtered: true };
        let codes = &self.parts().token_codes;
        let mut found = RoaringBitmap::new();
        let mut i: usize = 0;
        while i < ordinals.len()
            invariant
                self@.wf(),
                codes@ == self@.token_codes,
                ordinals_fault(self@, ordinals@) is None,
                i <= ordinals@.len(),
                forall|code: u32| #[trigger]
                    bitmap_values(found).contains(code) <==> exists|j: int|
                        0 <= j < i && #[trigger] self@.codes_of(ordinals@[j] as int).contains(code),
            decreases ordinals@.len() - i,
        {
            let document: u32 = ordinals[i];
            proof {
                if i < ordinals@.len() - 1 {
                    assert(ordinals@[i as int] < ordinals@[ordinals@.len() - 1]);
                }
            }
            let ghost before = bitmap_values(found);
            let ghost own = self@.codes_of(document as int);
            let (start, end) = match self.document_token_range(document) {
                Ok(range) => range,
                Err(_) => (0usize, 0usize),
            };
            let mut token: usize = start;
            while token < end
                invariant
                    codes@ == self@.token_codes,
                    own == self@.token_codes.subrange(start as int, end as int),
                    start <= token <= end <= codes@.len(),
                    forall|code: u32| #[trigger]
                        bitmap_values(found).contains(code) <==> before.contains(code) || exists|
                            t: int,
                        |
                            0 <= t < token - start && #[trigger] own[t] == code,
                decreases end - token,
            {
                let code: u32 = codes[token];
                let ghost earlier = bitmap_values(found);
                found.insert(code);
                proof {
                    assert forall|other: u32| #[trigger] bitmap_values(found).contains(other) <==>
                        before.contains(other) || exists|t: int|
                        0 <= t < token + 1 - start && #[trigger] own[t] == other by {
                        assert(own[token - start] == code);
                        if earlier.contains(other) && !before.contains(other) {
                            let t = choose|t: int|
                                0 <= t < token - start && #[trigger] own[t] == other;
                            assert(own[t] == other);
                        }
                    }
                }
                token += 1;
            }
            proof {
                assert forall|code: u32| #[trigger] bitmap_values(found).contains(code) <==> exists|
                    j: int,
                |
                    0 <= j < i + 1 && #[trigger] self@.codes_of(ordinals@[j] as int).contains(
                        code,
                    ) by {
                    if before.contains(code) {
                        let j = choose|j: int|
                            0 <= j < i && #[trigger] self@.codes_of(ordinals@[j] as int).contains(
                                code,
                            );
                        assert(self@.codes_of(ordinals@[j] as int).contains(code));
                    }
                    if exists|t: int| 0 <= t < own.len() && #[trigger] own[t] == code {
                        assert(own.contains(code));
                        assert(self@.codes_of(ordinals@[i as int] as int).contains(code));
                    }
                    if exists|j: int|
                        0 <= j < i + 1 && #[trigger] self@.codes_of(ordinals@[j] as int).contains(
                            code,
                        ) {
                        let j = choose|j: int|
                            0 <= j < i + 1 && #[trigger] self@.codes_of(
                                ordinals@[j] as int,
                            ).contains(code);
                        if j < i {
                            assert(before.contains(code));
                        } else {
                            let t = choose|t: int| 0 <= t < own.len() && own[t] == code;
                            assert(own[t] == code);
                        }
                    }
                }
            }
            i += 1;
        }
        let centroids = bitmap_to_vec(&found);
        proof {
            assert(bitmap_values(found) =~= goal.centroids(self@));
            in_order_of_increasing(centroids@);
            assert forall|c: int| 0 <= c < centroids@.len() implies #[trigger] centroids@[c]
                < self@.centroids.rows by {
                let code = centroids@[c];
                assert(centroids@.to_set().contains(code));
                let j = choose|j: int|
                    0 <= j < ordinals@.len() && #[trigger] self@.codes_of(
                        ordinals@[j] as int,
                    ).contains(code);
                let own = self@.codes_of(ordinals@[j] as int);
                let t = choose|t: int| 0 <= t < own.len() && own[t] == code;
                if j < ordinals@.len() - 1 {
                    assert(ordinals@[j] < ordinals@[ordinals@.len() - 1]);
                }
                let document = ordinals@[j] as int;
                assert(self@.document_offsets[document] <= self@.document_offsets[document + 1]);
                assert(self@.document_offsets[document + 1]
                    <= self@.document_offsets[self@.documents() as int]);
                assert(self@.token_codes[self@.document_start(document) + t] == code);
            }
        }
        centroids
    }

    /// Decides whether probing should be restricted to the centroids of eligible
    /// documents, and finds these where it should.
    pub fn plan_eligible_centroids(
        &self,
        ordinals: Option<&[u32]>,
        count: Option<usize>,
        filtered: bool,
        query_tokens: usize,
        n_ivf_probe: usize,
    ) -> (result: Result<EligibleCentroidPlan>)
        ensures
            ({
                let eligible = eligible_set(ordinals, count, filtered);
                match result {
                    Ok(plan) => eligible.fault(self@) is None && plan@ == plan_for(
                        self.identity(),
                        self@,
                        eligible,
                        query_tokens as nat,
                        n_ivf_probe as nat,
                    ) && plan@.belongs(self.identity(), self@.centroids.rows),
                    Err(error) => eligible.fault(self@) == Some(error@),
                }
            }),
    {
        proof {
            use_type_invariant(self);
        }
        let ghost eligible = eligible_set(ordinals, count, filtered);
        let estimated: u64 = self.estimate_postings(query_tokens, n_ivf_probe);
        let mut plan = EligibleCentroidPlan {
            owner: self.instance_id(),
            decision: EligibleCentroidDecision::Unfiltered,
            eligible_documents: 0,
            eligible_tokens: 0,
            eligible_token_codes_scanned: 0,
            centroids: Vec::new(),
            estimated_global_postings: estimated,
            core_build_nanos: 0,
        };
        assert(plan@.centroids =~= Seq::<u32>::empty());
        if !filtered {
            return Ok(plan);
        }
        if let Some(ordinals) = ordinals {
            self.validate_ordinals(ordinals)?;
        }
        let documents: usize = match ordinals {
            Some(ordinals) => ordinals.len(),
            None => match count {
                Some(count) => count,
                None => {
                    plan.decision = EligibleCentroidDecision::NonEnumerable;
                    return Ok(plan);
                },
            },
        };
        plan.eligible_documents = documents as u64;
        if documents == 0 {
            plan.decision = EligibleCentroidDecision::Empty;
            return Ok(plan);
        }
        if documents as u128 * SELECTIVITY_FACTOR as u128 > self.num_documents() as u128 {
            plan.decision = EligibleCentroidDecision::TooWide;
            return Ok(plan);
        }
        let ordinals = match ordinals {
            Some(ordinals) => ordinals,
            None => {
                plan.decision = EligibleCentroidDecision::NonEnumerable;
                return Ok(plan);
            },
        };
        let tokens: u64 = self.count_tokens(ordinals);
        plan.eligible_tokens = tokens;
        if tokens as u128 * SCAN_COST_FACTOR as u128 > estimated as u128 {
            plan.decision = EligibleCentroidDecision::ScanCostTooHigh;
            return Ok(plan);
        }
        plan.decision = EligibleCentroidDecision::Enabled;
        plan.eligible_token_codes_scanned = tokens;
        plan.centroids = self.collect_centroids(ordinals);
        proof {
            let named = EligibleSet { ordinals: Some(ordinals@), count: None, filtered: true };
            assert(named.centroids(self@) =~= eligible.centroids(self@));
        }
        Ok(plan)
    }

    /// Executable form of [`estimated_postings`].
    fn estimate_postings(&self, query_tokens: usize, n_ivf_probe: usize) -> (result: u64)
        ensures
            result == estimated_postings(self@, query_tokens as nat, n_ivf_probe as nat),
    {
        proof {
            use_type_invariant(self);
        }
        let postings = &self.parts().postings;
        let centroids: u128 = self.num_centroids() as u128;
        assert(query_tokens as u128 * n_ivf_probe as u128 <= u128::MAX) by (nonlinear_arith)
            requires
                query_tokens <= 0xffff_ffff_ffff_ffff,
                n_ivf_probe <= 0xffff_ffff_ffff_ffff,
        ;
        let wanted: u128 = query_tokens as u128 * n_ivf_probe as u128;
        let probed: u128 = if wanted < centroids {
            wanted
        } else {
            centroids
        };
        let entries: u128 = postings.len() as u128;
        assert(0 <= entries * probed <= u128::MAX && entries * probed / centroids as int <= entries)
            by (nonlinear_arith)
            requires
                0 <= entries <= 0xffff_ffff_ffff_ffff,
                0 <= probed <= centroids,
                0 < centroids <= 0xffff_ffff_ffff_ffff,
        ;
        (entries * probed / centroids) as u64
    }
}

/// Probing more centroids per query token keeps those that fewer probes select.
pub proof fn probes_grow_with_count(
    scores: Grid,
    allowed: Seq<u32>,
    fewer: nat,
    more: nat,
    threshold: Option<u32>,
    tokens: nat,
)
    requires
        fewer <= more,
    ensures
        probes(scores, allowed, fewer, threshold, tokens).subset_of(
            probes(scores, allowed, more, threshold, tokens),
        ),
    decreases tokens,
{
    if tokens > 0 {
        probes_grow_with_count(scores, allowed, fewer, more, threshold, (tokens - 1) as nat);
        let row = scores.row(tokens - 1);
        assert forall|centroid: u32| token_probes(row, allowed, fewer, threshold).contains(
            centroid,
        ) implies #[trigger] token_probes(row, allowed, more, threshold).contains(centroid) by {
            let own = RankedCentroid { score: row[centroid as int], centroid };
            let shorter = best_centroids(row, allowed, fewer);
            let longer = best_centroids(row, allowed, more);
            ascending_is_sorted_permutation(scored_centroids(row, allowed));
            let p = choose|p: int| 0 <= p < shorter.len() && shorter[p] == own;
            assert(longer[p] == own);
        }
    }
}

/// A probing run: what is scored, what may be probed and what is looked for.
pub struct Probing {
    pub segment: Segment,
    pub scores: Grid,
    pub allowed: Seq<u32>,
    pub threshold: Option<u32>,
    pub wanted: spec_fn(u32) -> bool,
    /// No round probes more centroids per query token.
    pub ceiling: nat,
    /// Rounds stop once this many documents are found.
    pub desired: nat,
}

impl Probing {
    /// The centroids that a round selects, in ascending order.
    pub open spec fn selected(self, nprobe: nat) -> Seq<u32> {
        in_order(self.selected_set(nprobe))
    }

    /// The set of centroids that a round selects.
    pub open spec fn selected_set(self, nprobe: nat) -> Set<u32> {
        probes(self.scores, self.allowed, nprobe, self.threshold, self.scores.rows)
    }

    /// The documents that the selected centroids lead to.
    pub open spec fn found(self, nprobe: nat) -> Set<u32> {
        candidates(self.segment, self.selected(nprobe), self.wanted)
    }

    /// No further round follows.
    pub open spec fn stops(self, nprobe: nat) -> bool {
        self.found(nprobe).len() >= self.desired || nprobe >= self.ceiling || nprobe == 0
    }

    /// Probes per query token in each round, from one round on: they double
    /// until enough documents are found or the ceiling is reached.
    pub open spec fn schedule(self, nprobe: nat) -> Seq<nat>
        decreases self.ceiling - nprobe,
    {
        if self.stops(nprobe) {
            seq![nprobe]
        } else {
            seq![nprobe] + self.schedule(smaller(2 * nprobe, self.ceiling))
        }
    }

    /// Centroids selected in some rounds, counted once for each round.
    pub open spec fn selections(self, rounds: Seq<nat>) -> nat
        decreases rounds.len(),
    {
        if rounds.len() == 0 {
            0
        } else {
            self.selections(rounds.drop_last()) + self.selected(rounds.last()).len()
        }
    }
}

/// The sum of some numbers.
pub open spec fn sum(numbers: Seq<nat>) -> nat
    decreases numbers.len(),
{
    if numbers.len() == 0 {
        0
    } else {
        sum(numbers.drop_last()) + numbers.last()
    }
}

/// Statistics after all rounds of a probing run.
pub open spec fn stats_after_rounds(
    stats: PlaidSearchStats,
    probing: Probing,
    n_ivf_probe: nat,
) -> PlaidSearchStats {
    let rounds = probing.schedule(n_ivf_probe);
    let last = rounds.last();
    PlaidSearchStats {
        centroids_probed: probing.selected(last).len() as u64,
        posting_entries_read: capped(
            stats.posting_entries_read as nat + entries_read(
                probing.segment,
                probing.selected(last),
            ),
        ),
        posting_entries_eligible: capped(
            stats.posting_entries_eligible as nat + entries_eligible(
                probing.segment,
                probing.selected(last),
                probing.wanted,
            ),
        ),
        candidate_documents: in_order(probing.found(last)).len() as u64,
        probe_rounds: capped(rounds.len()),
        probe_retries: capped((rounds.len() - 1) as nat),
        configured_probes: capped(sum(rounds)),
        final_nprobe: last as u64,
        incremental_centroids_reused: capped(probing.selections(rounds.drop_last())),
        ..stats
    }
}

/// Weights of a list split into two lists add up.
proof fn total_of_split(whole: Seq<u32>, left: Seq<u32>, right: Seq<u32>, weight: spec_fn(u32) -> nat)
    requires
        strictly_increasing(whole),
        strictly_increasing(left),
        strictly_increasing(right),
        forall|value: u32| #[trigger]
            whole.contains(value) <==> left.contains(value) || right.contains(value),
        forall|value: u32| #[trigger] left.contains(value) ==> !right.contains(value),
    ensures
        total(whole, weight) == total(left, weight) + total(right, weight),
    decreases whole.len(),
{
    if whole.len() == 0 {
        if left.len() > 0 {
            assert(left.contains(left[0]));
            assert(whole.contains(left[0]));
        }
        if right.len() > 0 {
            assert(right.contains(right[0]));
            assert(whole.contains(right[0]));
        }
    } else {
        let last = whole.last();
        assert(whole.contains(last));
        let rest = whole.drop_last();
        assert(strictly_increasing(rest));
        assert forall|value: u32| #[trigger] rest.contains(value) <==> whole.contains(value) && value
            != last by {
            list_without_last(whole, value);
        }
        if left.contains(last) {
            last_is_last(whole, left);
            let fewer = left.drop_last();
            assert forall|value: u32| #[trigger] fewer.contains(value) <==> left.contains(value)
                && value != last by {
                list_without_last(left, value);
            }
            assert forall|value: u32| #[trigger] rest.contains(value) <==> fewer.contains(value)
                || right.contains(value) by {
                assert(whole.contains(value) <==> left.contains(value) || right.contains(value));
            }
            total_of_split(rest, fewer, right, weight);
        } else {
            assert(right.contains(last));
            last_is_last(whole, right);
            let fewer = right.drop_last();
            assert forall|value: u32| #[trigger] fewer.contains(value) <==> right.contains(value)
                && value != last by {
                list_without_last(right, value);
            }
            assert forall|value: u32| #[trigger] rest.contains(value) <==> left.contains(value)
                || fewer.contains(value) by {
                assert(whole.contains(value) <==> left.contains(value) || right.contains(value));
            }
            total_of_split(rest, left, fewer, weight);
        }
    }
}

proof fn list_without_last(list: Seq<u32>, value: u32)
    requires
        strictly_increasing(list),
        list.len() > 0,
    ensures
        list.drop_last().contains(value) <==> list.contains(value) && value != list.last(),
{
    let rest = list.drop_last();
    if rest.contains(value) {
        let i = choose|i: int| 0 <= i < rest.len() && rest[i] == value;
        assert(list[i] == value);
        assert(list[i] < list[list.len() - 1]);
    }
    if list.contains(value) && value != list.last() {
        let i = choose|i: int| 0 <= i < list.len() && list[i] == value;
        assert(rest[i] == value);
    }
}

/// The largest value of a list is the last of any sublist that has it.
proof fn last_is_last(whole: Seq<u32>, part: Seq<u32>)
    requires
        strictly_increasing(whole),
        strictly_increasing(part),
        whole.len() > 0,
        part.contains(whole.last()),
        forall|value: u32| #[trigger] part.contains(value) ==> whole.contains(value),
    ensures
        part.len() > 0,
        part.last() == whole.last(),
{
    let i = choose|i: int| 0 <= i < part.len() && part[i] == whole.last();
    assert(part.contains(part.last()));
    let j = choose|j: int| 0 <= j < whole.len() && whole[j] == part.last();
    if i < part.len() - 1 {
        assert(part[i] < part[part.len() - 1]);
        if j < whole.len() - 1 {
            assert(whole[j] < whole[whole.len() - 1]);
        }
    }
}

proof fn total_of_ones(list: Seq<u32>)
    ensures
        total(list, |value: u32| 1nat) == list.len(),
    decreases list.len(),
{
    if list.len() > 0 {
        total_of_ones(list.drop_last());
    }
}

/// Adds values to those expanded already, and tells which of them are new.
fn newly_selected(selected: &Vec<u32>, expanded: &mut RoaringBitmap) -> (result: Vec<u32>)
    requires
        strictly_increasing(selected@),
    ensures
        bitmap_values(*final(expanded)) == bitmap_values(*old(expanded)).union(selected@.to_set()),
        strictly_increasing(result@),
        forall|value: u32| #[trigger]
            result@.contains(value) <==> selected@.contains(value) && !bitmap_values(
                *old(expanded),
            ).contains(value),
{
    let ghost before = bitmap_values(*expanded);
    let mut fresh: Vec<u32> = Vec::new();
    let mut i: usize = 0;
    assert(selected@.take(0) =~= Seq::<u32>::empty());
    assert(before =~= before.union(selected@.take(0).to_set()));
    while i < selected.len()
        invariant
            strictly_increasing(selected@),
            i <= selected@.len(),
            bitmap_values(*expanded) == before.union(selected@.take(i as int).to_set()),
            strictly_increasing(fresh@),
            forall|value: u32| #[trigger]
                fresh@.contains(value) <==> selected@.take(i as int).contains(value)
                    && !before.contains(value),
        decreases selected@.len() - i,
    {
        let value: u32 = selected[i];
        let ghost shorter = selected@.take(i as int);
        let ghost longer = selected@.take(i + 1);
        let ghost earlier = fresh@;
        proof {
            assert(longer =~= shorter.push(value));
            assert(longer.drop_last() =~= shorter);
            assert(strictly_increasing(longer));
            if shorter.contains(value) {
                list_without_last(longer, value);
            }
        }
        if expanded.insert(value) {
            fresh.push(value);
        }
        proof {
            assert forall|other: u32| #[trigger] longer.contains(other) <==> shorter.contains(other)
                || other == value by {
                list_without_last(longer, other);
                assert(longer[longer.len() - 1] == value);
            }
            assert(bitmap_values(*expanded) =~= before.union(longer.to_set()));
            assert forall|other: u32| #[trigger] fresh@.contains(other) <==> longer.contains(other)
                && !before.contains(other) by {
                if earlier.contains(other) {
                    let k = choose|k: int| 0 <= k < earlier.len() && earlier[k] == other;
                    assert(fresh@[k] == other);
                }
                if fresh@.contains(other) {
                    let k = choose|k: int| 0 <= k < fresh@.len() && fresh@[k] == other;
                    if k < earlier.len() {
                        assert(earlier.contains(other));
                    }
                }
                if fresh@.len() > earlier.len() {
                    assert(fresh@[earlier.len() as int] == value);
                }
            }
            assert forall|a: int, b: int| 0 <= a < b < fresh@.len() implies #[trigger] fresh@[a]
                < #[trigger] fresh@[b] by {
                if b == earlier.len() {
                    assert(earlier.contains(fresh@[a]));
                    let k = choose|k: int| 0 <= k < shorter.len() && shorter[k] == fresh@[a];
                    assert(selected@[k] < selected@[i as int]);
                }
            }
        }
        i += 1;
    }
    assert(selected@.take(i as int) =~= selected@);
    fresh
}

/// The centroids that a search may probe.
pub open spec fn allowed_centroids(segment: Segment, plan: Option<CentroidPlan>) -> Seq<u32> {
    match plan {
        Some(plan) => if plan.decision == EligibleCentroidDecision::Enabled {
            plan.centroids
        } else {
            all_centroids(segment.centroids.rows)
        },
        None => all_centroids(segment.centroids.rows),
    }
}

/// The plan that a caller hands over, as a mathematical object.
pub open spec fn plan_view(plan: Option<&EligibleCentroidPlan>) -> Option<CentroidPlan> {
    match plan {
        Some(plan) => Some(plan@),
        None => None,
    }
}

impl PlaidSearchStats {
    /// Notes the time that a search spent selecting centroids. It counts as time
    /// among eligible centroids where a plan restricts the search to them.
    pub fn record_selection(&mut self, plan: Option<&EligibleCentroidPlan>, nanos: u64)
        ensures
            *final(self) == (PlaidSearchStats {
                eligible_centroid_selection_nanos: if plan_view(plan) is Some && (plan_view(
                    plan,
                )->0).enabled() {
                    capped(old(self).eligible_centroid_selection_nanos as nat + nanos as nat)
                } else {
                    old(self).eligible_centroid_selection_nanos
                },
                ..*old(self)
            }),
    {
        if let Some(plan) = plan {
            if plan.is_enabled() {
                self.eligible_centroid_selection_nanos =
                self.eligible_centroid_selection_nanos.saturating_add(nanos);
            }
        }
    }
}

/// The probing run of an adaptive search.
pub open spec fn probing_of<E: Eligibility>(
    segment: Segment,
    scores: Grid,
    params: PlaidSearchParams,
    maximum_nprobes: nat,
    desired: nat,
    eligibility: E,
    plan: Option<CentroidPlan>,
) -> Probing {
    Probing {
        segment,
        scores,
        allowed: allowed_centroids(segment, plan),
        threshold: params.centroid_score_threshold,
        wanted: visible(segment, eligibility),
        ceiling: smaller(maximum_nprobes, segment.centroids.rows),
        desired,
    }
}

/// The documents that all rounds of a probing run find, in ascending order.
pub open spec fn adaptive_documents(probing: Probing, n_ivf_probe: nat) -> Seq<u32> {
    in_order(probing.found(probing.schedule(n_ivf_probe).last()))
}

proof fn sum_of_push(numbers: Seq<nat>, number: nat)
    ensures
        sum(numbers.push(number)) == sum(numbers) + number,
{
    assert(numbers.push(number).drop_last() =~= numbers);
}

proof fn selections_of_push(probing: Probing, rounds: Seq<nat>, nprobe: nat)
    ensures
        probing.selections(rounds.push(nprobe)) == probing.selections(rounds)
            + probing.selected(nprobe).len(),
{
    assert(rounds.push(nprobe).drop_last() =~= rounds);
}

/// What one round adds to the rounds before it.
proof fn round_extends(
    probing: Probing,
    before: Seq<u32>,
    selected: Seq<u32>,
    fresh: Seq<u32>,
)
    requires
        strictly_increasing(before),
        strictly_increasing(selected),
        strictly_increasing(fresh),
        forall|value: u32| #[trigger] before.contains(value) ==> selected.contains(value),
        forall|value: u32| #[trigger]
            fresh.contains(value) <==> selected.contains(value) && !before.contains(value),
    ensures
        entries_read(probing.segment, selected) == entries_read(probing.segment, before)
            + entries_read(probing.segment, fresh),
        entries_eligible(probing.segment, selected, probing.wanted) == entries_eligible(
            probing.segment,
            before,
            probing.wanted,
        ) + entries_eligible(probing.segment, fresh, probing.wanted),
        candidates(probing.segment, selected, probing.wanted) == candidates(
            probing.segment,
            before,
            probing.wanted,
        ).union(candidates(probing.segment, fresh, probing.wanted)),
        selected.len() == before.len() + fresh.len(),
{
    let segment = probing.segment;
    let wanted = probing.wanted;
    assert forall|value: u32| #[trigger] selected.contains(value) <==> before.contains(value)
        || fresh.contains(value) by {}
    total_of_split(
        selected,
        before,
        fresh,
        |centroid: u32| segment.posted(centroid as int).len(),
    );
    total_of_split(
        selected,
        before,
        fresh,
        |centroid: u32| count_where(segment.posted(centroid as int), wanted),
    );
    total_of_split(selected, before, fresh, |value: u32| 1nat);
    total_of_ones(selected);
    total_of_ones(before);
    total_of_ones(fresh);
    assert forall|document: u32| #[trigger] candidates(segment, selected, wanted).contains(document)
        <==> candidates(segment, before, wanted).contains(document) || candidates(
        segment,
        fresh,
        wanted,
    ).contains(document) by {
        candidates_are_posted_and_visible(segment, selected, wanted, document);
        candidates_are_posted_and_visible(segment, before, wanted, document);
        candidates_are_posted_and_visible(segment, fresh, wanted, document);
        if exists|i: int|
            0 <= i < selected.len() && #[trigger] segment.posted(selected[i] as int).contains(
                document,
            ) {
            let i = choose|i: int|
                0 <= i < selected.len() && #[trigger] segment.posted(selected[i] as int).contains(
                    document,
                );
            assert(selected.contains(selected[i]));
            if before.contains(selected[i]) {
                let j = choose|j: int| 0 <= j < before.len() && before[j] == selected[i];
                assert(segment.posted(before[j] as int).contains(document));
            } else {
                assert(fresh.contains(selected[i]));
                let j = choose|j: int| 0 <= j < fresh.len() && fresh[j] == selected[i];
                assert(segment.posted(fresh[j] as int).contains(document));
            }
        }
        if exists|i: int|
            0 <= i < before.len() && #[trigger] segment.posted(before[i] as int).contains(
                document,
            ) {
            let i = choose|i: int|
                0 <= i < before.len() && #[trigger] segment.posted(before[i] as int).contains(
                    document,
                );
            assert(before.contains(before[i]));
            let j = choose|j: int| 0 <= j < selected.len() && selected[j] == before[i];
            assert(segment.posted(selected[j] as int).contains(document));
        }
        if exists|i: int|
            0 <= i < fresh.len() && #[trigger] segment.posted(fresh[i] as int).contains(document) {
            let i = choose|i: int|
                0 <= i < fresh.len() && #[trigger] segment.posted(fresh[i] as int).contains(
                    document,
                );
            assert(fresh.contains(fresh[i]));
            let j = choose|j: int| 0 <= j < selected.len() && selected[j] == fresh[i];
            assert(segment.posted(selected[j] as int).contains(document));
        }
    }
    assert(candidates(segment, selected, wanted) =~= candidates(segment, before, wanted).union(
        candidates(segment, fresh, wanted),
    ));
}

impl PlaidIndex {
    /// Probes in rounds until enough documents are found, with twice the probes
    /// in each further round, and expands the postings of every centroid once.
    pub fn probe_adaptive<E: Eligibility>(
        &self,
        query_centroid_scores: &Matrix,
        params: &PlaidSearchParams,
        maximum_nprobes: usize,
        desired_candidates: usize,
        eligibility: &E,
        plan: Option<&EligibleCentroidPlan>,
        stats: &mut PlaidSearchStats,
    ) -> (result: Vec<u32>)
        requires
            query_centroid_scores@.columns == self@.centroids.rows,
            self@.centroids.rows <= 0x1_0000_0000,
            params.n_ivf_probe > 0,
            plan is Some ==> plan->0@.belongs(self.identity(), self@.centroids.rows),
        ensures
            ({
                let probing = probing_of(
                    self@,
                    query_centroid_scores@,
                    *params,
                    maximum_nprobes as nat,
                    desired_candidates as nat,
                    *eligibility,
                    plan_view(plan),
                );
                &&& result@ == adaptive_documents(probing, params.n_ivf_probe as nat)
                &&& strictly_increasing(result@)
                &&& all_below(result@, self@.documents())
                &&& *final(stats) == stats_after_rounds(
                    *old(stats),
                    probing,
                    params.n_ivf_probe as nat,
                )
            }),
    {
        let ghost probing = probing_of(
            self@,
            query_centroid_scores@,
            *params,
            maximum_nprobes as nat,
            desired_candidates as nat,
            *eligibility,
            plan_view(plan),
        );
        let every = every_centroid(query_centroid_scores.columns());
        let allowed = match plan {
            Some(plan) => if plan.decision == EligibleCentroidDecision::Enabled {
                &plan.centroids
            } else {
                &every
            },
            None => &every,
        };
        let num_centroids: usize = self.num_centroids();
        let ceiling: usize = if maximum_nprobes < num_centroids {
            maximum_nprobes
        } else {
            num_centroids
        };
        let mut nprobe: usize = params.n_ivf_probe;
        let mut expanded = RoaringBitmap::new();
        let mut found = RoaringBitmap::new();
        let mut rounds: u64 = 0;
        let mut configured: u64 = 0;
        let mut retries: u64 = 0;
        let mut reused: u64 = 0;
        let ghost mut done: Seq<nat> = Seq::empty();
        let ghost mut before: Seq<u32> = Seq::empty();
        proof {
            assert(in_order(Set::<u32>::empty()) == Seq::<u32>::empty()) by {
                assert(Seq::<u32>::empty().to_set() =~= Set::<u32>::empty());
                in_order_of_increasing(Seq::<u32>::empty());
            }
            assert(before.to_set() =~= Set::<u32>::empty());
            assert(probing.schedule(nprobe as nat) =~= done + probing.schedule(nprobe as nat));
        }
        loop
            invariant_except_break
                probing.schedule(params.n_ivf_probe as nat) == done + probing.schedule(
                    nprobe as nat,
                ),
                done.len() > 0 ==> done.last() <= nprobe,
                done.len() > 0 ==> before == probing.selected(done.last()),
                done.len() > 0 ==> before.to_set() == probing.selected_set(done.last()),
                done.len() == 0 ==> before.len() == 0,
                retries == capped(done.len()),
                reused == capped(probing.selections(done)),
                nprobe > 0,
            invariant
                probing == probing_of(
                    self@,
                    query_centroid_scores@,
                    *params,
                    maximum_nprobes as nat,
                    desired_candidates as nat,
                    *eligibility,
                    plan_view(plan),
                ),
                allowed@ == probing.allowed,
                forall|i: int|
                    0 <= i < allowed@.len() ==> #[trigger] allowed@[i]
                        < query_centroid_scores@.columns,
                query_centroid_scores@.columns == self@.centroids.rows,
                ceiling == probing.ceiling,
                rounds == capped(done.len()),
                configured == capped(sum(done)),
                strictly_increasing(before),
                bitmap_values(expanded) == before.to_set(),
                bitmap_values(found) == candidates(self@, before, probing.wanted),
                *stats == (PlaidSearchStats {
                    posting_entries_read: capped(
                        old(stats).posting_entries_read as nat + entries_read(self@, before),
                    ),
                    posting_entries_eligible: capped(
                        old(stats).posting_entries_eligible as nat + entries_eligible(
                            self@,
                            before,
                            probing.wanted,
                        ),
                    ),
                    ..*old(stats)
                }),
            ensures
                done == probing.schedule(params.n_ivf_probe as nat),
                done.len() > 0,
                done.last() == nprobe,
                before == probing.selected(nprobe as nat),
                before.to_set() == probing.selected_set(nprobe as nat),
                retries == capped((done.len() - 1) as nat),
                reused == capped(probing.selections(done.drop_last())),
            decreases ceiling - nprobe,
        {
            let selected = select_centroids(
                query_centroid_scores,
                allowed,
                nprobe,
                params.centroid_score_threshold,
            );
            let centroids = bitmap_to_vec(&selected);
            proof {
                in_order_of_increasing(centroids@);
                assert(centroids@ == probing.selected(nprobe as nat));
                if done.len() > 0 {
                    probes_grow_with_count(
                        probing.scores,
                        probing.allowed,
                        done.last(),
                        nprobe as nat,
                        probing.threshold,
                        probing.scores.rows,
                    );
                    assert forall|value: u32| #[trigger] before.contains(
                        value,
                    ) implies centroids@.contains(value) by {
                        assert(before.to_set().contains(value));
                        assert(centroids@.to_set().contains(value));
                    }
                }
                assert forall|i: int| 0 <= i < centroids@.len() implies #[trigger] centroids@[i]
                    < self@.centroids.rows by {
                    assert(centroids@.to_set().contains(centroids@[i]));
                    probes_are_best_allowed(
                        query_centroid_scores@,
                        allowed@,
                        nprobe as nat,
                        params.centroid_score_threshold,
                        query_centroid_scores@.rows,
                        centroids@[i],
                    );
                }
            }
            let fresh = newly_selected(&centroids, &mut expanded);
            proof {
                assert forall|i: int| 0 <= i < fresh@.len() implies #[trigger] fresh@[i]
                    < self@.centroids.rows by {
                    assert(fresh@.contains(fresh@[i]));
                    let k = choose|k: int| 0 <= k < centroids@.len() && centroids@[k] == fresh@[i];
                    assert(centroids@[k] < self@.centroids.rows);
                }
                assert forall|value: u32| #[trigger] fresh@.contains(value) <==>
                    centroids@.contains(value) && !before.contains(value) by {
                    assert(before.to_set().contains(value) <==> before.contains(value));
                }
                round_extends(probing, before, centroids@, fresh@);
            }
            self.expand_postings(&fresh, eligibility, &mut found, stats);
            rounds = rounds.saturating_add(1);
            configured = configured.saturating_add(nprobe as u64);
            let enough = found.len() >= desired_candidates as u64;
            proof {
                assert(bitmap_values(expanded) =~= centroids@.to_set()) by {
                    assert forall|value: u32| #[trigger] bitmap_values(expanded).contains(value)
                        <==> centroids@.to_set().contains(value) by {
                        assert(before.to_set().contains(value) <==> before.contains(value));
                        assert(centroids@.to_set().contains(value) <==> centroids@.contains(value));
                    }
                }
                sum_of_push(done, nprobe as nat);
                selections_of_push(probing, done, nprobe as nat);
                before = centroids@;
                done = done.push(nprobe as nat);
            }
            if enough || nprobe >= ceiling {
                proof {
                    assert(probing.stops(nprobe as nat));
                    assert(done.drop_last().push(nprobe as nat) =~= done);
                }
                break ;
            }
            retries = retries.saturating_add(1);
            reused = reused.saturating_add(centroids.len() as u64);
            proof {
                let next = smaller(2 * (nprobe as nat), probing.ceiling);
                assert(!probing.stops(nprobe as nat));
                assert(done + probing.schedule(next) =~= done.drop_last() + (seq![nprobe as nat]
                    + probing.schedule(next)));
            }
            nprobe = if nprobe > ceiling / 2 {
                ceiling
            } else {
                nprobe * 2
            };
        }
        stats.centroids_probed = expanded.len();
        stats.candidate_documents = found.len();
        stats.probe_rounds = rounds;
        stats.probe_retries = retries;
        stats.configured_probes = configured;
        stats.final_nprobe = nprobe as u64;
        stats.incremental_centroids_reused = reused;
        let documents = bitmap_to_vec(&found);
        proof {
            use_type_invariant(self);
            in_order_of_increasing(documents@);
            increasing_has_set_len(documents@);
            increasing_has_set_len(before);
            assert forall|i: int| 0 <= i < documents@.len() implies #[trigger] documents@[i]
                < self@.documents() by {
                assert(documents@.to_set().contains(documents@[i]));
                candidates_are_posted_and_visible(self@, before, probing.wanted, documents@[i]);
                let c = choose|c: int|
                    0 <= c < before.len() && #[trigger] self@.posted(before[c] as int).contains(
                        documents@[i],
                    );
                assert(before.contains(before[c]));
                assert(before.to_set().contains(before[c]));
                probes_are_best_allowed(
                    probing.scores,
                    probing.allowed,
                    nprobe as nat,
                    probing.threshold,
                    probing.scores.rows,
                    before[c],
                );
                posted_documents_exist(self@, before[c], documents@[i]);
            }
        }
        documents
    }
}

/// Rounds start with the probes that are asked for, and each further one probes
/// twice as many centroids per query token, up to the ceiling. A round follows
/// exactly where too few documents were found and the ceiling was not reached.
pub proof fn rounds_double_until_enough(probing: Probing, nprobe: nat)
    requires
        nprobe > 0,
    ensures
        ({
            let rounds = probing.schedule(nprobe);
            &&& rounds.len() > 0
            &&& rounds[0] == nprobe
            &&& forall|i: int|
                0 <= i < rounds.len() - 1 ==> {
                    let probes = #[trigger] rounds[i];
                    &&& probing.found(probes).len() < probing.desired
                    &&& probes < probing.ceiling
                    &&& rounds[i + 1] <= 2 * probes
                    &&& rounds[i + 1] <= probing.ceiling
                    &&& rounds[i + 1] == 2 * probes || rounds[i + 1] == probing.ceiling
                }
            &&& probing.found(rounds.last()).len() >= probing.desired || rounds.last()
                >= probing.ceiling
        }),
    decreases probing.ceiling - nprobe,
{
    let rounds = probing.schedule(nprobe);
    if !probing.stops(nprobe) {
        let next = smaller(2 * nprobe, probing.ceiling);
        rounds_double_until_enough(probing, next);
        let later = probing.schedule(next);
        assert(rounds =~= seq![nprobe] + later);
        assert forall|i: int| 0 <= i < rounds.len() - 1 implies {
            let probes = #[trigger] rounds[i];
            &&& probing.found(probes).len() < probing.desired
            &&& probes < probing.ceiling
            &&& rounds[i + 1] <= 2 * probes
            &&& rounds[i + 1] <= probing.ceiling
            &&& rounds[i + 1] == 2 * probes || rounds[i + 1] == probing.ceiling
        } by {
            assert(rounds[i + 1] == later[i]);
            if i > 0 {
                assert(rounds[i] == later[i - 1]);
            }
        }
        assert(rounds.last() == later.last());
    }
}

/// A round finds the documents that are looked for and that one of the selected
/// centroids posts. A centroid is selected where one of the query tokens probes
/// it.
pub proof fn rounds_find_posted_documents(probing: Probing, nprobe: nat, document: u32)
    ensures
        probing.found(nprobe).contains(document) <==> (probing.wanted)(document) && exists|
            centroid: u32,
        |
            probing.selected_set(nprobe).contains(centroid) && #[trigger] probing.segment.posted(
                centroid as int,
            ).contains(document),
        forall|centroid: u32| #[trigger]
            probing.selected_set(nprobe).contains(centroid) <==> exists|token: int|
                0 <= token < probing.scores.rows && #[trigger] token_probes(
                    probing.scores.row(token),
                    probing.allowed,
                    nprobe,
                    probing.threshold,
                ).contains(centroid),
{
    let segment = probing.segment;
    let selected = probing.selected(nprobe);
    in_order_lists_the_set(probing.selected_set(nprobe));
    candidates_are_posted_and_visible(segment, selected, probing.wanted, document);
    if exists|centroid: u32|
        probing.selected_set(nprobe).contains(centroid) && #[trigger] segment.posted(
            centroid as int,
        ).contains(document) {
        let centroid = choose|centroid: u32|
            probing.selected_set(nprobe).contains(centroid) && #[trigger] segment.posted(
                centroid as int,
            ).contains(document);
        assert(selected.contains(centroid));
        let i = choose|i: int| 0 <= i < selected.len() && selected[i] == centroid;
        assert(segment.posted(selected[i] as int).contains(document));
    }
    if exists|i: int|
        0 <= i < selected.len() && #[trigger] segment.posted(selected[i] as int).contains(
            document,
        ) {
        let i = choose|i: int|
            0 <= i < selected.len() && #[trigger] segment.posted(selected[i] as int).contains(
                document,
            );
        assert(selected.contains(selected[i]));
        assert(probing.selected_set(nprobe).contains(selected[i]));
    }
    assert forall|centroid: u32| #[trigger]
        probing.selected_set(nprobe).contains(centroid) <==> exists|token: int|
            0 <= token < probing.scores.rows && #[trigger] token_probes(
                probing.scores.row(token),
                probing.allowed,
                nprobe,
                probing.threshold,
            ).contains(centroid) by {
        queries_probe_for_every_token(
            probing.scores,
            probing.allowed,
            nprobe,
            probing.threshold,
            probing.scores.rows,
            centroid,
        );
    }
}

/// A search by probing returns what its last round finds, looks for documents that
/// may be returned, and never probes more centroids than there are or than it is
/// told.
pub proof fn adaptive_searches_return_the_last_round<E: Eligibility>(
    segment: Segment,
    scores: Grid,
    params: PlaidSearchParams,
    maximum_nprobes: nat,
    desired: nat,
    eligibility: E,
    plan: Option<CentroidPlan>,
    document: u32,
)
    ensures
        ({
            let probing = probing_of(
                segment,
                scores,
                params,
                maximum_nprobes,
                desired,
                eligibility,
                plan,
            );
            let n_ivf_probe = params.n_ivf_probe as nat;
            &&& adaptive_documents(probing, n_ivf_probe).contains(document) <==> probing.found(
                probing.schedule(n_ivf_probe).last(),
            ).contains(document)
            &&& strictly_increasing(adaptive_documents(probing, n_ivf_probe))
            &&& (probing.wanted)(document) == eligibility.admits(
                document,
                segment.row_addresses[document as int],
            )
            &&& probing.desired == desired
            &&& probing.ceiling <= maximum_nprobes
            &&& probing.ceiling <= segment.centroids.rows
            &&& probing.ceiling == maximum_nprobes || probing.ceiling == segment.centroids.rows
        }),
{
    let probing = probing_of(segment, scores, params, maximum_nprobes, desired, eligibility, plan);
    in_order_lists_the_set(
        probing.found(probing.schedule(params.n_ivf_probe as nat).last()),
    );
}

/// A count, or the largest 64-bit number where it is larger than that.
pub open spec fn up_to_limit(count: int) -> int {
    if count <= 0xffff_ffff_ffff_ffff {
        count
    } else {
        0xffff_ffff_ffff_ffff
    }
}

/// Each further round is one retry. The centroids of all rounds but the last were
/// selected again, and all that the last one selects are read once.
pub proof fn rounds_are_accounted_for(
    stats: PlaidSearchStats,
    probing: Probing,
    nprobe: nat,
    rounds: Seq<nat>,
    probes: nat,
)
    requires
        nprobe > 0,
        probing.schedule(nprobe).len() <= u64::MAX,
        probing.schedule(nprobe).last() <= u64::MAX,
        probing.selected(probing.schedule(nprobe).last()).len() <= u64::MAX,
        adaptive_documents(probing, nprobe).len() <= u64::MAX,
    ensures
        ({
            let after = stats_after_rounds(stats, probing, nprobe);
            let last = probing.schedule(nprobe).last();
            &&& after.probe_rounds == probing.schedule(nprobe).len()
            &&& after.probe_retries + 1 == after.probe_rounds
            &&& after.final_nprobe == last
            &&& after.centroids_probed == probing.selected(last).len()
            &&& after.candidate_documents == adaptive_documents(probing, nprobe).len()
            &&& after.posting_entries_read == up_to_limit(
                stats.posting_entries_read + entries_read(probing.segment, probing.selected(last)),
            )
            &&& after.posting_entries_eligible == up_to_limit(
                stats.posting_entries_eligible + entries_eligible(
                    probing.segment,
                    probing.selected(last),
                    probing.wanted,
                ),
            )
            &&& after.configured_probes == up_to_limit(sum(probing.schedule(nprobe)) as int)
            &&& after.incremental_centroids_reused == up_to_limit(
                probing.selections(
                    probing.schedule(nprobe).take(probing.schedule(nprobe).len() - 1),
                ) as int,
            )
            &&& after.approximate_documents == stats.approximate_documents
            &&& after.exact_documents == stats.exact_documents
        }),
        sum(Seq::empty()) == 0,
        sum(rounds.push(probes)) == sum(rounds) + probes,
        probing.selections(Seq::empty()) == 0,
        probing.selections(rounds.push(probes)) == probing.selections(rounds) + probing.selected(
            probes,
        ).len(),
{
    rounds_double_until_enough(probing, nprobe);
    let schedule = probing.schedule(nprobe);
    assert(schedule.take(schedule.len() - 1) =~= schedule.drop_last());
    sum_of_push(rounds, probes);
    selections_of_push(probing, rounds, probes);
}

/// Probing is restricted to eligible centroids exactly where the query has a
/// filter whose documents are known, at most one in 32 of the documents is
/// eligible, and reading four posting entries for each of their tokens would read
/// no more than an average query reads.
pub proof fn narrow_filters_restrict_probing(
    eligible: EligibleSet,
    segment: Segment,
    query_tokens: nat,
    n_ivf_probe: nat,
    probed: nat,
)
    requires
        segment.centroids.rows > 0,
        probed <= query_tokens * n_ivf_probe,
        probed <= segment.centroids.rows,
        probed == query_tokens * n_ivf_probe || probed == segment.centroids.rows,
    ensures
        ({
            let decision = eligible.decision(segment, query_tokens, n_ivf_probe);
            let known = match eligible.ordinals {
                Some(list) => Some(list.len()),
                None => eligible.count,
            };
            &&& decision == EligibleCentroidDecision::Unfiltered <==> !eligible.filtered
            &&& decision == EligibleCentroidDecision::Empty <==> eligible.filtered && known == Some(
                0nat,
            )
            &&& decision == EligibleCentroidDecision::TooWide <==> eligible.filtered && known
                is Some && 32 * known->0 > segment.row_addresses.len() && known->0 > 0
            &&& decision == EligibleCentroidDecision::Enabled <==> {
                &&& eligible.filtered
                &&& eligible.ordinals is Some
                &&& 0 < 32 * (eligible.ordinals->0).len() <= segment.row_addresses.len()
                &&& 4 * eligible.tokens(segment) * segment.centroids.rows <= segment.postings.len()
                    * probed
            }
            &&& decision == EligibleCentroidDecision::ScanCostTooHigh <==> {
                &&& eligible.filtered
                &&& eligible.ordinals is Some
                &&& 0 < 32 * (eligible.ordinals->0).len() <= segment.row_addresses.len()
                &&& 4 * eligible.tokens(segment) * segment.centroids.rows > segment.postings.len()
                    * probed
            }
        }),
{
    let rows = segment.centroids.rows;
    let entries = segment.postings.len() * probed;
    let tokens = eligible.tokens(segment);
    assert(4 * tokens <= entries / rows <==> 4 * tokens * rows <= entries) by (nonlinear_arith)
        requires
            rows > 0,
    ;
}

/// The eligible tokens are all tokens of all eligible documents, and the eligible
/// centroids are those that these tokens are assigned to.
pub proof fn eligible_documents_bring_their_tokens(
    segment: Segment,
    documents: Seq<u32>,
    document: u32,
    filtered: bool,
    code: u32,
)
    requires
        segment.wf(),
        all_below(documents.push(document), segment.row_addresses.len()),
    ensures
        ({
            let none = EligibleSet { ordinals: Some(Seq::empty()), count: None, filtered };
            let before = EligibleSet { ordinals: Some(documents), count: None, filtered };
            let after = EligibleSet {
                ordinals: Some(documents.push(document)),
                count: None,
                filtered,
            };
            &&& none.tokens(segment) == 0
            &&& after.tokens(segment) == before.tokens(segment)
                + segment.document_offsets[document + 1]
                - segment.document_offsets[document as int]
            &&& !none.centroids(segment).contains(code)
            &&& after.centroids(segment).contains(code) <==> before.centroids(segment).contains(
                code,
            ) || exists|token: int|
                segment.document_offsets[document as int] <= token
                    < segment.document_offsets[document + 1]
                    && #[trigger] segment.token_codes[token] == code
        }),
{
    let longer = documents.push(document);
    assert(longer.drop_last() =~= documents);
    assert(longer[documents.len() as int] == document);
    assert(segment.document_offsets[document as int] <= segment.document_offsets[document + 1]);
    assert(segment.document_offsets[document + 1]
        <= segment.document_offsets[segment.documents() as int]);
    let before = EligibleSet { ordinals: Some(documents), count: None, filtered };
    let after = EligibleSet { ordinals: Some(longer), count: None, filtered };
    let own = segment.codes_of(document as int);
    let start = segment.document_start(document as int);
    if after.centroids(segment).contains(code) && !before.centroids(segment).contains(code) {
        let i = choose|i: int|
            0 <= i < longer.len() && #[trigger] segment.codes_of(longer[i] as int).contains(code);
        if i < documents.len() {
            assert(segment.codes_of(documents[i] as int).contains(code));
        }
        let t = choose|t: int| 0 <= t < own.len() && own[t] == code;
        assert(segment.token_codes[start + t] == code);
    }
    if before.centroids(segment).contains(code) {
        let i = choose|i: int|
            0 <= i < documents.len() && #[trigger] segment.codes_of(documents[i] as int).contains(
                code,
            );
        assert(segment.codes_of(longer[i] as int).contains(code));
    }
    if exists|token: int|
        segment.document_offsets[document as int] <= token < segment.document_offsets[document + 1]
            && #[trigger] segment.token_codes[token] == code {
        let token = choose|token: int|
            segment.document_offsets[document as int] <= token < segment.document_offsets[document
                + 1] && #[trigger] segment.token_codes[token] == code;
        assert(own[token - start] == code);
        assert(segment.codes_of(longer[documents.len() as int] as int).contains(code));
    }
}

/// A plan that restricts probing lets it reach the eligible centroids and no
/// others. Any other plan, and none at all, lets it reach all centroids.
pub proof fn plans_allow_eligible_centroids(
    owner: u64,
    segment: Segment,
    eligible: EligibleSet,
    query_tokens: nat,
    n_ivf_probe: nat,
    centroid: u32,
)
    requires
        segment.centroids.rows <= 0x1_0000_0000,
    ensures
        ({
            let plan = plan_for(owner, segment, eligible, query_tokens, n_ivf_probe);
            &&& plan.owner == owner
            &&& plan.decision == eligible.decision(segment, query_tokens, n_ivf_probe)
            &&& allowed_centroids(segment, Some(plan)).contains(centroid) <==> if plan.decision
                == EligibleCentroidDecision::Enabled {
                eligible.centroids(segment).contains(centroid)
            } else {
                centroid < segment.centroids.rows
            }
            &&& allowed_centroids(segment, None).contains(centroid) <==> centroid
                < segment.centroids.rows
            &&& plan.enabled() <==> plan.decision == EligibleCentroidDecision::Enabled
                || plan.decision == EligibleCentroidDecision::Empty
        }),
{
    let plan = plan_for(owner, segment, eligible, query_tokens, n_ivf_probe);
    in_order_lists_the_set(eligible.centroids(segment));
    let every = all_centroids(segment.centroids.rows);
    if centroid < segment.centroids.rows {
        assert(every[centroid as int] == centroid);
    }
}

/// A plan counts what it looked at: the eligible documents where a filter tells
/// how many there are, their tokens where these were counted, and the average
/// reading of a query in any case.
pub proof fn plans_count_eligible_documents(
    owner: u64,
    segment: Segment,
    eligible: EligibleSet,
    query_tokens: nat,
    n_ivf_probe: nat,
)
    requires
        segment.wf(),
        eligible.filtered,
        eligible.documents() is Some,
        eligible.documents()->0 <= u64::MAX,
        eligible.tokens(segment) <= u64::MAX,
    ensures
        ({
            let plan = plan_for(owner, segment, eligible, query_tokens, n_ivf_probe);
            let rows = segment.centroids.rows;
            &&& plan.eligible_documents == match eligible.ordinals {
                Some(list) => list.len(),
                None => eligible.count->0,
            }
            &&& plan.decision == EligibleCentroidDecision::Enabled ==> plan.eligible_tokens
                == eligible.tokens(segment) && plan.eligible_token_codes_scanned
                == eligible.tokens(segment)
            &&& plan.decision == EligibleCentroidDecision::ScanCostTooHigh ==> plan.eligible_tokens
                == eligible.tokens(segment) && plan.eligible_token_codes_scanned == 0
            &&& plan.decision != EligibleCentroidDecision::Enabled && plan.decision
                != EligibleCentroidDecision::ScanCostTooHigh ==> plan.eligible_tokens == 0
                && plan.eligible_token_codes_scanned == 0
            &&& plan.decision != EligibleCentroidDecision::Enabled ==> plan.centroids.len() == 0
            &&& plan.estimated_global_postings == estimated_postings(
                segment,
                query_tokens,
                n_ivf_probe,
            )
            &&& plan.estimated_global_postings * rows <= segment.postings.len() * rows
            &&& plan.estimated_global_postings * rows <= segment.postings.len() * (query_tokens
                * n_ivf_probe)
            &&& plan.core_build_nanos == 0
        }),
{
    let rows = segment.centroids.rows;
    let entries = segment.postings.len();
    let probed = smaller(query_tokens * n_ivf_probe, rows);
    let average = entries * probed / rows;
    assert(average * rows <= entries * probed && entries * probed <= entries * rows && entries
        * probed <= entries * (query_tokens * n_ivf_probe) && average <= entries)
        by (nonlinear_arith)
        requires
            rows > 0,
            average == entries * probed / rows,
            0 <= probed <= rows,
            probed <= query_tokens * n_ivf_probe,
    ;
    assert(estimated_postings(segment, query_tokens, n_ivf_probe) == average);
}

/// The posting entries that a query is expected to read are its share of all
/// entries, rounded down: as many parts of them as it probes centroids.
pub proof fn expected_readings_are_shares(
    segment: Segment,
    query_tokens: nat,
    n_ivf_probe: nat,
    probed: nat,
)
    requires
        segment.centroids.rows > 0,
        probed <= query_tokens * n_ivf_probe,
        probed <= segment.centroids.rows,
        probed == query_tokens * n_ivf_probe || probed == segment.centroids.rows,
    ensures
        ({
            let expected = estimated_postings(segment, query_tokens, n_ivf_probe);
            let rows = segment.centroids.rows;
            &&& expected * rows <= segment.postings.len() * probed
            &&& segment.postings.len() * probed < (expected + 1) * rows
        }),
{
    let rows = segment.centroids.rows;
    let entries = segment.postings.len() * probed;
    let expected = entries / rows;
    assert(expected * rows <= entries && entries < (expected + 1) * rows) by (nonlinear_arith)
        requires
            rows > 0,
            expected == entries / rows,
    ;
}

} // verus!
