//! Candidates of several segments, and ranked rows.

use crate::database::{increasing, DatabaseError, DatabaseResult, Trouble};
use crate::scalar;
use crate::search::{larger, smaller, SearchHit};
use crate::sort::{
    ascending, ascending_ignores_arrival_order, ascending_is_sorted_permutation, sort, TotalOrder,
};
use crate::take::distinct_addresses;
use crate::text::{decimal, text_two_numbers};
use crate::vector_index::Query;
use std::collections::HashMap;
use vstd::prelude::*;
use vstd::relations::*;

verus! {

/// A candidate row with its score.
#[derive(Clone, Copy, Debug, PartialEq, Eq, Structural)]
pub struct ScoredRow {
    pub row_address: u64,
    pub score: u32,
}

/// Candidates rank by descending score, then by ascending row address.
impl TotalOrder for ScoredRow {
    open spec fn before(self, other: Self) -> bool {
        ||| scalar::total_position(self.score) > scalar::total_position(other.score)
        ||| self.score == other.score && self.row_address <= other.row_address
    }

    proof fn before_is_total_order() {
        let relation = |left: Self, right: Self| left.before(right);
        assert forall|left: Self, right: Self|
            left.before(right) && right.before(left) implies left == right by {
            if scalar::total_position(left.score) == scalar::total_position(right.score) {
                scalar::total_position_is_injective(left.score, right.score);
            }
        }
        assert forall|left: Self, right: Self| left.before(right) || right.before(left) by {
            if scalar::total_position(left.score) == scalar::total_position(right.score) {
                scalar::total_position_is_injective(left.score, right.score);
            }
        }
        assert(reflexive(relation));
        assert(antisymmetric(relation));
        assert(transitive(relation));
        assert(strongly_connected(relation));
    }

    fn is_before(&self, other: &Self) -> (result: bool) {
        let left: i64 = scalar::to_total_position(self.score);
        let right: i64 = scalar::to_total_position(other.score);
        if left != right {
            return left > right;
        }
        proof {
            scalar::total_position_is_injective(self.score, other.score);
        }
        self.row_address <= other.row_address
    }
}

/// Scores by row address once one hit is taken in: of two scores for a row the
/// better one stays.
pub open spec fn with_hit(scores: Map<u64, u32>, hit: SearchHit) -> Map<u64, u32> {
    scores.insert(
        hit.row_address,
        if scores.dom().contains(hit.row_address) {
            larger(scores[hit.row_address], hit.score)
        } else {
            hit.score
        },
    )
}

/// Scores by row address once some hits are taken in.
pub open spec fn with_hits(scores: Map<u64, u32>, hits: Seq<SearchHit>) -> Map<u64, u32>
    decreases hits.len(),
{
    if hits.len() == 0 {
        scores
    } else {
        with_hit(with_hits(scores, hits.drop_last()), hits.last())
    }
}

/// A row with a score is among the earlier scores or the hits.
pub open spec fn offered(scores: Map<u64, u32>, hits: Seq<SearchHit>, address: u64, score: u32) -> bool {
    ||| scores.dom().contains(address) && scores[address] == score
    ||| exists|i: int|
        0 <= i < hits.len() && (#[trigger] hits[i]).row_address == address && hits[i].score
            == score
}

/// A row has the best of all scores that it was offered with.
pub proof fn merging_keeps_the_best_score(scores: Map<u64, u32>, hits: Seq<SearchHit>)
    ensures
        forall|address: u64| #[trigger]
            with_hits(scores, hits).dom().contains(address) ==> offered(
                scores,
                hits,
                address,
                with_hits(scores, hits)[address],
            ),
        forall|address: u64, score: u32| #[trigger]
            offered(scores, hits, address, score) ==> with_hits(scores, hits).dom().contains(address)
                && scalar::total_position(score) <= scalar::total_position(
                with_hits(scores, hits)[address],
            ),
    decreases hits.len(),
{
    if hits.len() > 0 {
        let shorter = hits.drop_last();
        let last = hits.last();
        merging_keeps_the_best_score(scores, shorter);
        let before = with_hits(scores, shorter);
        let after = with_hits(scores, hits);
        assert(hits[hits.len() - 1] == last);
        assert forall|address: u64| #[trigger] after.dom().contains(address) implies offered(
            scores,
            hits,
            address,
            after[address],
        ) by {
            if address == last.row_address && after[address] == last.score {
                assert(hits[hits.len() - 1].row_address == address);
            } else {
                assert(before.dom().contains(address));
                assert(after[address] == before[address]);
                assert(offered(scores, shorter, address, before[address]));
                if !(scores.dom().contains(address) && scores[address] == before[address]) {
                    let i = choose|i: int|
                        0 <= i < shorter.len() && (#[trigger] shorter[i]).row_address == address
                            && shorter[i].score == before[address];
                    assert(hits[i] == shorter[i]);
                }
            }
        }
        assert forall|address: u64, score: u32| #[trigger]
            offered(scores, hits, address, score) implies after.dom().contains(address)
            && scalar::total_position(score) <= scalar::total_position(after[address]) by {
            if scores.dom().contains(address) && scores[address] == score {
                assert(offered(scores, shorter, address, score));
            } else {
                let i = choose|i: int|
                    0 <= i < hits.len() && (#[trigger] hits[i]).row_address == address
                        && hits[i].score == score;
                if i < shorter.len() {
                    assert(shorter[i] == hits[i]);
                    assert(offered(scores, shorter, address, score));
                }
            }
        }
    }
}

/// The order in which segments deliver their hits does not matter.
pub proof fn merging_ignores_arrival_order(
    scores: Map<u64, u32>,
    left: Seq<SearchHit>,
    right: Seq<SearchHit>,
)
    requires
        forall|hit: SearchHit| #[trigger] left.contains(hit) <==> right.contains(hit),
    ensures
        with_hits(scores, left) == with_hits(scores, right),
{
    merging_keeps_the_best_score(scores, left);
    merging_keeps_the_best_score(scores, right);
    same_hits_offer_the_same(scores, left, right);
    same_hits_offer_the_same(scores, right, left);
    let a = with_hits(scores, left);
    let b = with_hits(scores, right);
    assert forall|address: u64| #[trigger] a.dom().contains(address) <==> b.dom().contains(
        address,
    ) by {
        if a.dom().contains(address) {
            assert(offered(scores, right, address, a[address]));
        }
        if b.dom().contains(address) {
            assert(offered(scores, left, address, b[address]));
        }
    }
    assert forall|address: u64| #[trigger] a.dom().contains(address) implies a[address]
        == b[address] by {
        assert(b.dom().contains(address));
        assert(offered(scores, right, address, a[address]));
        assert(offered(scores, left, address, b[address]));
        scalar::total_position_is_injective(a[address], b[address]);
    }
    assert(a =~= b);
}

proof fn same_hits_offer_the_same(
    scores: Map<u64, u32>,
    left: Seq<SearchHit>,
    right: Seq<SearchHit>,
)
    requires
        forall|hit: SearchHit| #[trigger] left.contains(hit) <==> right.contains(hit),
    ensures
        forall|address: u64, score: u32| #[trigger]
            offered(scores, left, address, score) ==> offered(scores, right, address, score),
{
    assert forall|address: u64, score: u32| #[trigger]
        offered(scores, left, address, score) implies offered(scores, right, address, score) by {
        if !(scores.dom().contains(address) && scores[address] == score) {
            let i = choose|i: int|
                0 <= i < left.len() && (#[trigger] left[i]).row_address == address && left[i].score
                    == score;
            assert(left.contains(left[i]));
            assert(right.contains(left[i]));
            let j = choose|j: int| 0 <= j < right.len() && right[j] == left[i];
            assert(right[j].row_address == address);
        }
    }
}

/// Rows in some order are all the rows that have scores, each once.
pub open spec fn enumerates(rows: Seq<ScoredRow>, scores: Map<u64, u32>) -> bool {
    &&& rows.no_duplicates()
    &&& forall|row: ScoredRow| #[trigger]
        rows.contains(row) <==> scores.dom().contains(row.row_address) && scores[row.row_address]
            == row.score
}

/// Candidate rows with their scores.
#[derive(Debug)]
pub struct Candidates {
    /// The rows in the order of their arrival.
    order: Vec<u64>,
    scores: HashMap<u64, u32>,
}

impl View for Candidates {
    type V = Map<u64, u32>;

    closed spec fn view(&self) -> Map<u64, u32> {
        self.scores@
    }
}

impl Candidates {
    /// Every row with a score arrived once.
    pub closed spec fn wf(self) -> bool {
        &&& self.order@.no_duplicates()
        &&& forall|address: u64| #[trigger]
            self.order@.contains(address) <==> self.scores@.dom().contains(address)
    }

    /// No candidates.
    pub fn new() -> (result: Candidates)
        ensures
            result.wf(),
            result@ == Map::<u64, u32>::empty(),
    {
        broadcast use vstd::std_specs::hash::group_hash_axioms;

        Candidates { order: Vec::new(), scores: HashMap::new() }
    }

    /// Number of rows.
    pub fn len(&self) -> (result: usize)
        requires
            self.wf(),
        ensures
            self@.dom().finite(),
            result == self@.dom().len(),
    {
        proof {
            self.order@.unique_seq_to_set();
            vstd::seq_lib::seq_to_set_is_finite(self.order@);
            assert(self.order@.to_set() =~= self@.dom());
        }
        self.order.len()
    }

    /// The score of a row.
    pub fn get(&self, address: u64) -> (result: Option<u32>)
        ensures
            result == if self@.dom().contains(address) {
                Some(self@[address])
            } else {
                None
            },
    {
        broadcast use vstd::std_specs::hash::group_hash_axioms;

        match self.scores.get(&address) {
            Some(score) => Some(*score),
            None => None,
        }
    }

    /// Gives a row a score.
    fn set(&mut self, address: u64, score: u32)
        requires
            old(self).wf(),
        ensures
            final(self).wf(),
            final(self)@ == old(self)@.insert(address, score),
    {
        broadcast use vstd::std_specs::hash::group_hash_axioms;

        let ghost before = self.order@;
        let known = self.scores.contains_key(&address);
        self.scores.insert(address, score);
        if !known {
            self.order.push(address);
        }
        proof {
            let after = self.order@;
            assert forall|other: u64| #[trigger] after.contains(other) <==> self.scores@.dom().contains(
                other,
            ) by {
                if !known {
                    assert(after == before.push(address));
                    if before.contains(other) {
                        let i = choose|i: int| 0 <= i < before.len() && before[i] == other;
                        assert(after[i] == other);
                    }
                    if other == address {
                        assert(after[before.len() as int] == other);
                    }
                    if after.contains(other) && other != address {
                        let i = choose|i: int| 0 <= i < after.len() && after[i] == other;
                        assert(before[i] == other);
                    }
                }
            }
            if !known {
                assert(!before.contains(address));
                assert(after.no_duplicates());
            }
        }
    }

    /// The rows with their scores, in the order of their arrival.
    pub fn rows(&self) -> (result: Vec<ScoredRow>)
        requires
            self.wf(),
        ensures
            enumerates(result@, self@),
            self@.dom().finite(),
            result@.len() == self@.dom().len(),
    {
        broadcast use vstd::std_specs::hash::group_hash_axioms;

        let mut rows: Vec<ScoredRow> = Vec::new();
        let mut i: usize = 0;
        while i < self.order.len()
            invariant
                self.wf(),
                i <= self.order@.len(),
                rows@.len() == i,
                forall|j: int|
                    0 <= j < i ==> #[trigger] rows@[j] == (ScoredRow {
                        row_address: self.order@[j],
                        score: self@[self.order@[j]],
                    }),
            decreases self.order@.len() - i,
        {
            broadcast use vstd::std_specs::hash::group_hash_axioms;

            let address: u64 = self.order[i];
            assert(self.order@.contains(address));
            if let Some(score) = self.scores.get(&address) {
                rows.push(ScoredRow { row_address: address, score: *score });
            }
            i += 1;
        }
        proof {
            let list = rows@;
            assert forall|a: int, b: int| 0 <= a < list.len() && 0 <= b < list.len() && a != b implies list[a]
                != list[b] by {
                assert(self.order@[a] != self.order@[b]);
            }
            assert forall|row: ScoredRow| #[trigger]
                list.contains(row) <==> self@.dom().contains(row.row_address)
                    && self@[row.row_address] == row.score by {
                if list.contains(row) {
                    let k = choose|k: int| 0 <= k < list.len() && list[k] == row;
                    assert(self.order@.contains(self.order@[k]));
                }
                if self@.dom().contains(row.row_address) && self@[row.row_address] == row.score {
                    assert(self.order@.contains(row.row_address));
                    let k = choose|k: int|
                        0 <= k < self.order@.len() && self.order@[k] == row.row_address;
                    assert(list[k] == row);
                }
            }
            self.order@.unique_seq_to_set();
            vstd::seq_lib::seq_to_set_is_finite(self.order@);
            assert(self.order@.to_set() =~= self@.dom());
        }
        rows
    }

    /// Rows that are scored later, each with a score of zero.
    pub fn unscored(addresses: &Vec<u64>) -> (result: Candidates)
        ensures
            result.wf(),
            forall|address: u64| #[trigger]
                result@.dom().contains(address) <==> addresses@.contains(address),
            forall|address: u64| #[trigger]
                result@.dom().contains(address) ==> result@[address] == 0,
    {
        let mut candidates = Candidates::new();
        let mut i: usize = 0;
        while i < addresses.len()
            invariant
                candidates.wf(),
                i <= addresses@.len(),
                forall|address: u64| #[trigger]
                    candidates@.dom().contains(address) <==> addresses@.take(i as int).contains(
                        address,
                    ),
                forall|address: u64| #[trigger]
                    candidates@.dom().contains(address) ==> candidates@[address] == 0,
            decreases addresses@.len() - i,
        {
            let ghost before = candidates@;
            let ghost prefix = addresses@.take(i as int);
            let ghost longer = addresses@.take(i + 1);
            let own: u64 = addresses[i];
            candidates.set(own, 0);
            proof {
                assert(longer =~= prefix.push(own));
                assert forall|address: u64| #[trigger]
                    candidates@.dom().contains(address) <==> longer.contains(address) by {
                    if prefix.contains(address) {
                        let k = choose|k: int| 0 <= k < prefix.len() && prefix[k] == address;
                        assert(longer[k] == address);
                    }
                    if address == own {
                        assert(longer[prefix.len() as int] == address);
                    }
                    if longer.contains(address) && address != own {
                        let k = choose|k: int| 0 <= k < longer.len() && longer[k] == address;
                        assert(prefix[k] == address);
                    }
                }
            }
            i += 1;
        }
        assert(addresses@.take(i as int) =~= addresses@);
        candidates
    }
}

/// Takes in the hits of one segment.
pub fn merge_segment_hits(candidates: &mut Candidates, hits: &Vec<SearchHit>)
    requires
        old(candidates).wf(),
    ensures
        final(candidates).wf(),
        final(candidates)@ == with_hits(old(candidates)@, hits@),
{
    let ghost start = candidates@;
    let mut i: usize = 0;
    assert(hits@.take(0) =~= Seq::<SearchHit>::empty());
    while i < hits.len()
        invariant
            candidates.wf(),
            i <= hits@.len(),
            candidates@ == with_hits(start, hits@.take(i as int)),
        decreases hits@.len() - i,
    {
        let hit = hits[i];
        assert(hits@.take(i + 1).drop_last() =~= hits@.take(i as int));
        assert(hits@.take(i + 1).last() == hit);
        let best: u32 = match candidates.get(hit.row_address) {
            Some(score) => if scalar::to_total_position(hit.score) > scalar::to_total_position(
                score,
            ) {
                hit.score
            } else {
                score
            },
            None => hit.score,
        };
        candidates.set(hit.row_address, best);
        i += 1;
    }
    assert(hits@.take(i as int) =~= hits@);
}

/// Two enumerations of the same scores rank alike.
pub proof fn ranking_ignores_enumeration(
    left: Seq<ScoredRow>,
    right: Seq<ScoredRow>,
    scores: Map<u64, u32>,
)
    requires
        enumerates(left, scores),
        enumerates(right, scores),
    ensures
        ascending(left) == ascending(right),
{
    assert forall|row: ScoredRow| #[trigger] left.contains(row) <==> right.contains(row) by {}
    left.lemma_multiset_has_no_duplicates();
    right.lemma_multiset_has_no_duplicates();
    left.to_multiset_ensures();
    right.to_multiset_ensures();
    assert forall|row: ScoredRow| #[trigger]
        left.to_multiset().count(row) == right.to_multiset().count(row) by {
        if left.contains(row) {
            assert(left.to_multiset().contains(row));
            assert(right.to_multiset().contains(row));
        } else {
            assert(!left.to_multiset().contains(row));
            assert(!right.to_multiset().contains(row));
        }
    }
    assert(left.to_multiset() =~= right.to_multiset());
    ascending_ignores_arrival_order(left, right);
}

/// The rows whose stored vectors are fetched: after a fallback all candidates in
/// the order of their addresses, else the best ones as far as the budget goes.
pub open spec fn fetches(
    addresses: Seq<u64>,
    scores: Map<u64, u32>,
    exact_fallback: bool,
    requested: nat,
) -> bool {
    if exact_fallback {
        &&& increasing(addresses)
        &&& forall|address: u64| #[trigger]
            addresses.contains(address) <==> scores.dom().contains(address)
    } else {
        exists|rows: Seq<ScoredRow>| #[trigger]
            enumerates(rows, scores) && addresses == best_addresses(rows, requested)
    }
}

/// The addresses of the best rows.
pub open spec fn best_addresses(rows: Seq<ScoredRow>, count: nat) -> Seq<u64> {
    ascending(rows).take(smaller(count, rows.len()) as int).map_values(
        |row: ScoredRow| row.row_address,
    )
}

/// Chooses the rows whose stored vectors are fetched.
pub fn rows_to_fetch(candidates: &Candidates, exact_fallback: bool, requested_candidates: usize) -> (result:
    Vec<u64>)
    requires
        candidates.wf(),
    ensures
        fetches(result@, candidates@, exact_fallback, requested_candidates as nat),
{
    let rows = candidates.rows();
    if exact_fallback {
        let mut addresses: Vec<u64> = Vec::new();
        let mut i: usize = 0;
        while i < rows.len()
            invariant
                i <= rows@.len(),
                addresses@ =~= rows@.take(i as int).map_values(|row: ScoredRow| row.row_address),
            decreases rows@.len() - i,
        {
            addresses.push(rows[i].row_address);
            i += 1;
        }
        let result = distinct_addresses(&addresses);
        proof {
            assert(rows@.take(i as int) =~= rows@);
            assert forall|address: u64| #[trigger]
                result@.contains(address) <==> candidates@.dom().contains(address) by {
                if addresses@.contains(address) {
                    let k = choose|k: int| 0 <= k < addresses@.len() && addresses@[k] == address;
                    assert(rows@.contains(rows@[k]));
                }
                if candidates@.dom().contains(address) {
                    let row = ScoredRow { row_address: address, score: candidates@[address] };
                    assert(rows@.contains(row));
                    let k = choose|k: int| 0 <= k < rows@.len() && rows@[k] == row;
                    assert(addresses@[k] == address);
                }
            }
        }
        return result;
    }
    let sorted = sort(&rows);
    proof {
        ascending_is_sorted_permutation(rows@);
    }
    let count: usize = if requested_candidates < rows.len() {
        requested_candidates
    } else {
        rows.len()
    };
    let mut addresses: Vec<u64> = Vec::new();
    let mut i: usize = 0;
    while i < count
        invariant
            i <= count <= sorted@.len(),
            addresses@ =~= sorted@.take(i as int).map_values(|row: ScoredRow| row.row_address),
        decreases count - i,
    {
        addresses.push(sorted[i].row_address);
        i += 1;
    }
    assert(addresses@ == best_addresses(rows@, requested_candidates as nat));
    addresses
}

/// A row with its distance, where smaller is better.
#[derive(Clone, Copy, Debug, PartialEq, Eq, Structural)]
pub struct ExactHit {
    pub row_address: u64,
    pub distance: u32,
}

/// Rows rank by ascending distance, then by ascending address.
impl TotalOrder for ExactHit {
    open spec fn before(self, other: Self) -> bool {
        ||| scalar::total_position(self.distance) < scalar::total_position(other.distance)
        ||| self.distance == other.distance && self.row_address <= other.row_address
    }

    proof fn before_is_total_order() {
        let relation = |left: Self, right: Self| left.before(right);
        assert forall|left: Self, right: Self|
            left.before(right) && right.before(left) implies left == right by {
            if scalar::total_position(left.distance) == scalar::total_position(right.distance) {
                scalar::total_position_is_injective(left.distance, right.distance);
            }
        }
        assert forall|left: Self, right: Self| left.before(right) || right.before(left) by {
            if scalar::total_position(left.distance) == scalar::total_position(right.distance) {
                scalar::total_position_is_injective(left.distance, right.distance);
            }
        }
        assert(reflexive(relation));
        assert(antisymmetric(relation));
        assert(transitive(relation));
        assert(strongly_connected(relation));
    }

    fn is_before(&self, other: &Self) -> (result: bool) {
        let left: i64 = scalar::to_total_position(self.distance);
        let right: i64 = scalar::to_total_position(other.distance);
        if left != right {
            return left < right;
        }
        proof {
            scalar::total_position_is_injective(self.distance, other.distance);
        }
        self.row_address <= other.row_address
    }
}

/// A row lies within the distances that a query allows: the lower one is
/// allowed, the upper one is not.
pub open spec fn within(query: Query) -> spec_fn(ExactHit) -> bool {
    |hit: ExactHit|
        {
            &&& query.lower_bound is Some ==> scalar::at_least(hit.distance, query.lower_bound->0)
            &&& query.upper_bound is Some ==> scalar::greater(query.upper_bound->0, hit.distance)
        }
}

/// The rows that a query returns: those within its distances, best first, up to
/// its number of rows.
pub open spec fn ranked_hits(hits: Seq<ExactHit>, query: Query) -> Seq<ExactHit> {
    let allowed = hits.filter(within(query));
    ascending(allowed).take(smaller(query.k as nat, allowed.len()) as int)
}

/// Chooses and ranks the rows that a query returns.
pub fn rank_hits(hits: &Vec<ExactHit>, query: &Query) -> (result: Vec<ExactHit>)
    ensures
        result@ == ranked_hits(hits@, *query),
{
    let ghost wanted = within(*query);
    let mut allowed: Vec<ExactHit> = Vec::new();
    let mut i: usize = 0;
    proof {
        reveal(Seq::filter);
        assert(hits@.take(0) =~= Seq::<ExactHit>::empty());
    }
    while i < hits.len()
        invariant
            wanted == within(*query),
            i <= hits@.len(),
            allowed@ == hits@.take(i as int).filter(wanted),
        decreases hits@.len() - i,
    {
        let hit = hits[i];
        proof {
            reveal(Seq::filter);
            assert(hits@.take(i + 1).drop_last() =~= hits@.take(i as int));
            assert(hits@.take(i + 1).last() == hit);
        }
        let above = match query.lower_bound {
            Some(lower) => scalar::is_at_least(hit.distance, lower),
            None => true,
        };
        let below = match query.upper_bound {
            Some(upper) => scalar::is_greater(upper, hit.distance),
            None => true,
        };
        if above && below {
            allowed.push(hit);
        }
        i += 1;
    }
    assert(hits@.take(i as int) =~= hits@);
    let sorted = sort(&allowed);
    proof {
        ascending_is_sorted_permutation(allowed@);
    }
    let mut result: Vec<ExactHit> = Vec::new();
    let mut j: usize = 0;
    while j < sorted.len() && j < query.k
        invariant
            j <= sorted@.len(),
            j <= query.k,
            result@ =~= sorted@.take(j as int),
        decreases sorted@.len() - j,
    {
        result.push(sorted[j]);
        j += 1;
    }
    result
}

/// Filtering keeps the values that satisfy the condition, and no others.
proof fn filtered_values(values: Seq<ExactHit>, wanted: spec_fn(ExactHit) -> bool)
    ensures
        forall|value: ExactHit| #[trigger]
            values.filter(wanted).contains(value) <==> values.contains(value) && wanted(value),
    decreases values.len(),
{
    reveal(Seq::filter);
    if values.len() > 0 {
        let shorter = values.drop_last();
        let last = values.last();
        filtered_values(shorter, wanted);
        let kept = values.filter(wanted);
        let earlier = shorter.filter(wanted);
        assert(values =~= shorter.push(last));
        assert forall|value: ExactHit| #[trigger]
            kept.contains(value) <==> values.contains(value) && wanted(value) by {
            if kept.contains(value) {
                let i = choose|i: int| 0 <= i < kept.len() && kept[i] == value;
                if i < earlier.len() {
                    assert(earlier[i] == value);
                    assert(earlier.contains(value));
                    let k = choose|k: int| 0 <= k < shorter.len() && shorter[k] == value;
                    assert(values[k] == value);
                } else {
                    assert(values[values.len() - 1] == value);
                }
            }
            if values.contains(value) && wanted(value) {
                let k = choose|k: int| 0 <= k < values.len() && values[k] == value;
                if k < shorter.len() {
                    assert(shorter[k] == value);
                    assert(shorter.contains(value));
                    assert(earlier.contains(value));
                    let i = choose|i: int| 0 <= i < earlier.len() && earlier[i] == value;
                    assert(kept[i] == value);
                } else {
                    assert(kept[kept.len() - 1] == value);
                }
            }
        }
    }
}

/// A query returns rows within its distances, best first, and every such row
/// that it does not return ranks behind all that it returns.
pub proof fn ranked_hits_are_the_best(hits: Seq<ExactHit>, query: Query)
    ensures
        ranked_hits(hits, query).len() <= query.k,
        forall|i: int|
            0 <= i < ranked_hits(hits, query).len() ==> hits.contains(
                #[trigger] ranked_hits(hits, query)[i],
            ) && within(query)(ranked_hits(hits, query)[i]),
        forall|i: int, j: int|
            0 <= i < j < ranked_hits(hits, query).len() ==> (#[trigger] ranked_hits(
                hits,
                query,
            )[i]).before(#[trigger] ranked_hits(hits, query)[j]),
        forall|i: int, k: int|
            0 <= i < ranked_hits(hits, query).len() && 0 <= k < hits.len() && within(query)(hits[k])
                && !ranked_hits(hits, query).contains(hits[k]) ==> (#[trigger] ranked_hits(
                hits,
                query,
            )[i]).before(#[trigger] hits[k]),
{
    let allowed = hits.filter(within(query));
    let sorted = ascending(allowed);
    let result = ranked_hits(hits, query);
    ascending_is_sorted_permutation(allowed);
    filtered_values(hits, within(query));
    assert forall|i: int| 0 <= i < result.len() implies hits.contains(#[trigger] result[i])
        && within(query)(result[i]) by {
        assert(sorted.contains(sorted[i]));
        assert(allowed.contains(sorted[i]));
    }
    assert forall|i: int, k: int|
        0 <= i < result.len() && 0 <= k < hits.len() && within(query)(hits[k]) && !result.contains(
            hits[k],
        ) implies (#[trigger] result[i]).before(#[trigger] hits[k]) by {
        let hit = hits[k];
        assert(hits.contains(hit));
        assert(allowed.contains(hit));
        assert(sorted.contains(hit));
        let p = choose|p: int| 0 <= p < sorted.len() && sorted[p] == hit;
        if p < result.len() {
            assert(result[p] == hit);
        }
        assert(sorted[i].before(sorted[p]));
    }
}

/// How often a value stays when others are filtered out.
proof fn filtered_counts(values: Seq<ExactHit>, wanted: spec_fn(ExactHit) -> bool, value: ExactHit)
    ensures
        values.filter(wanted).to_multiset().count(value) == if wanted(value) {
            values.to_multiset().count(value)
        } else {
            0
        },
    decreases values.len(),
{
    reveal(Seq::filter);
    broadcast use vstd::seq_lib::group_to_multiset_ensures;
    broadcast use vstd::multiset::group_multiset_axioms;

    if values.len() > 0 {
        let shorter = values.drop_last();
        filtered_counts(shorter, wanted, value);
        assert(values =~= shorter.push(values.last()));
    } else {
        assert(values.filter(wanted) =~= values);
        assert(values.to_multiset() =~= vstd::multiset::Multiset::empty());
    }
}

/// What a query returns does not depend on the order in which its rows were
/// found.
pub proof fn ranking_ignores_arrival_order(
    left: Seq<ExactHit>,
    right: Seq<ExactHit>,
    query: Query,
)
    requires
        left.to_multiset() == right.to_multiset(),
    ensures
        ranked_hits(left, query) == ranked_hits(right, query),
{
    let wanted = within(query);
    let a = left.filter(wanted);
    let b = right.filter(wanted);
    assert forall|value: ExactHit| #[trigger]
        a.to_multiset().count(value) == b.to_multiset().count(value) by {
        filtered_counts(left, wanted, value);
        filtered_counts(right, wanted, value);
    }
    assert(a.to_multiset() =~= b.to_multiset());
    a.to_multiset_ensures();
    b.to_multiset_ensures();
    ascending_ignores_arrival_order(a, b);
}

/// Hits with the row identifiers that were looked up for them.
pub open spec fn identified(hits: Seq<ExactHit>, row_ids: Seq<u64>) -> Seq<ExactHit> {
    Seq::new(
        hits.len(),
        |i: int| ExactHit { row_address: row_ids[i], distance: hits[i].distance },
    )
}

/// What is told where a take returned another number of rows than asked for.
pub open spec fn row_count_trouble(head: Seq<char>, returned: nat, expected: nat) -> Trouble {
    Trouble::Internal(
        head + decimal(returned) + " rows for "@ + decimal(expected) + " candidates"@,
    )
}

fn row_count_error(head: &str, returned: usize, expected: usize) -> (result: DatabaseError)
    ensures
        result@ == row_count_trouble(head@, returned as nat, expected as nat),
{
    let mut text = text_two_numbers(
        head,
        returned as u64,
        " rows for ",
        expected as u64,
    );
    text.push_str(" candidates");
    DatabaseError::Internal(text)
}

/// Checks that identifiers were found for all rows.
pub fn check_row_ids(returned: usize, expected: usize) -> (result: DatabaseResult<()>)
    ensures
        match result {
            Ok(()) => returned == expected,
            Err(error) => returned != expected && error@ == row_count_trouble(
                "PLAID row-id-only take returned "@,
                returned as nat,
                expected as nat,
            ),
        },
{
    if returned != expected {
        return Err(row_count_error("PLAID row-id-only take returned ", returned, expected));
    }
    Ok(())
}

/// Checks that vectors were found for all rows.
pub fn check_raw_vectors(returned: usize, expected: usize) -> (result: DatabaseResult<()>)
    ensures
        match result {
            Ok(()) => returned == expected,
            Err(error) => returned != expected && error@ == row_count_trouble(
                "PLAID raw-vector take returned "@,
                returned as nat,
                expected as nat,
            ),
        },
{
    if returned != expected {
        return Err(row_count_error("PLAID raw-vector take returned ", returned, expected));
    }
    Ok(())
}

/// Puts row identifiers in place of addresses.
pub fn identify_hits(hits: &Vec<ExactHit>, row_ids: &[u64]) -> (result: Vec<ExactHit>)
    requires
        hits@.len() == row_ids@.len(),
    ensures
        result@ == identified(hits@, row_ids@),
{
    let mut result: Vec<ExactHit> = Vec::new();
    let mut i: usize = 0;
    while i < hits.len()
        invariant
            hits@.len() == row_ids@.len(),
            i <= hits@.len(),
            result@ =~= identified(hits@, row_ids@).take(i as int),
        decreases hits@.len() - i,
    {
        result.push(ExactHit { row_address: row_ids[i], distance: hits[i].distance });
        i += 1;
    }
    assert(result@ =~= identified(hits@, row_ids@));
    result
}

/// Rows of an index-only query once their identifiers are known: ranked again,
/// since identifiers need not be in the order of addresses.
pub fn finish_index_only(hits: &Vec<ExactHit>, row_ids: &[u64]) -> (result: DatabaseResult<
    Vec<ExactHit>,
>)
    ensures
        match result {
            Ok(ranked) => hits@.len() == row_ids@.len() && ranked@ == ascending(
                identified(hits@, row_ids@),
            ),
            Err(error) => hits@.len() != row_ids@.len() && error@ == row_count_trouble(
                "PLAID row-id-only take returned "@,
                row_ids@.len(),
                hits@.len(),
            ),
        },
{
    check_row_ids(row_ids.len(), hits.len())?;
    let named = identify_hits(hits, row_ids);
    Ok(sort(&named))
}

/// Rows of a refined query once their vectors are scored.
pub fn finish_refined(hits: &Vec<ExactHit>, row_ids: &[u64], query: &Query) -> (result: Vec<
    ExactHit,
>)
    requires
        hits@.len() == row_ids@.len(),
    ensures
        result@ == ranked_hits(identified(hits@, row_ids@), *query),
{
    let named = identify_hits(hits, row_ids);
    rank_hits(&named, query)
}

/// A query allows a row at a distance: no less than the lower bound, and less than
/// the upper one, where there are bounds.
pub open spec fn allows(query: Query, distance: u32) -> bool {
    &&& query.lower_bound is Some ==> scalar::at_least(distance, query.lower_bound->0)
    &&& query.upper_bound is Some ==> scalar::greater(query.upper_bound->0, distance)
}

/// A query returns the allowed rows at the smallest distances, nearest first and
/// at equal distances by ascending address. It returns no more than it was asked
/// for, fewer only where it returns every allowed row, and none that it was not
/// given.
pub proof fn queries_return_the_nearest_rows(hits: Seq<ExactHit>, query: Query)
    ensures
        ({
            let returned = ranked_hits(hits, query);
            &&& returned.len() <= query.k
            &&& forall|i: int|
                0 <= i < returned.len() ==> allows(query, (#[trigger] returned[i]).distance)
            &&& forall|i: int, j: int|
                0 <= i < j < returned.len() ==> {
                    let left = #[trigger] returned[i];
                    let right = #[trigger] returned[j];
                    ||| scalar::total_position(left.distance) < scalar::total_position(
                        right.distance,
                    )
                    ||| left.distance == right.distance && left.row_address <= right.row_address
                }
            &&& forall|i: int, k: int|
                0 <= i < returned.len() && 0 <= k < hits.len() && allows(query, hits[k].distance)
                    && !returned.contains(hits[k]) ==> {
                    let near = #[trigger] returned[i];
                    let far = #[trigger] hits[k];
                    ||| scalar::total_position(near.distance) < scalar::total_position(far.distance)
                    ||| near.distance == far.distance && near.row_address <= far.row_address
                }
            &&& forall|hit: ExactHit| #[trigger]
                returned.to_multiset().count(hit) <= hits.to_multiset().count(hit)
            &&& returned.len() < query.k ==> forall|hit: ExactHit|
                allows(query, hit.distance) ==> #[trigger] returned.to_multiset().count(hit)
                    == hits.to_multiset().count(hit)
        }),
{
    let allowed = hits.filter(within(query));
    let sorted = ascending(allowed);
    let returned = ranked_hits(hits, query);
    ascending_is_sorted_permutation(allowed);
    filtered_values(hits, within(query));
    assert forall|hit: ExactHit| allows(query, hit.distance) == #[trigger] within(query)(hit) by {}
    assert forall|i: int| 0 <= i < returned.len() implies allows(
        query,
        (#[trigger] returned[i]).distance,
    ) by {
        assert(sorted.contains(sorted[i]));
        assert(allowed.contains(sorted[i]));
        assert(within(query)(returned[i]));
    }
    assert forall|i: int, j: int| 0 <= i < j < returned.len() implies {
        let left = #[trigger] returned[i];
        let right = #[trigger] returned[j];
        ||| scalar::total_position(left.distance) < scalar::total_position(right.distance)
        ||| left.distance == right.distance && left.row_address <= right.row_address
    } by {
        assert(sorted[i].before(sorted[j]));
    }
    assert forall|i: int, k: int|
        0 <= i < returned.len() && 0 <= k < hits.len() && allows(query, hits[k].distance)
            && !returned.contains(hits[k]) implies {
        let near = #[trigger] returned[i];
        let far = #[trigger] hits[k];
        ||| scalar::total_position(near.distance) < scalar::total_position(far.distance)
        ||| near.distance == far.distance && near.row_address <= far.row_address
    } by {
        let hit = hits[k];
        assert(hits.contains(hit));
        assert(within(query)(hit));
        assert(allowed.contains(hit));
        assert(sorted.contains(hit));
        let p = choose|p: int| 0 <= p < sorted.len() && sorted[p] == hit;
        if p < returned.len() {
            assert(returned[p] == hit);
        }
        assert(sorted[i].before(sorted[p]));
    }
    assert forall|hit: ExactHit| #[trigger]
        returned.to_multiset().count(hit) <= hits.to_multiset().count(hit) by {
        filtered_counts(hits, within(query), hit);
        first_values_occur_no_more(sorted, returned.len() as int, hit);
    }
    if returned.len() < query.k {
        assert(returned =~= sorted);
        assert forall|hit: ExactHit| allows(query, hit.distance) implies
            #[trigger] returned.to_multiset().count(hit) == hits.to_multiset().count(hit) by {
            filtered_counts(hits, within(query), hit);
            assert(within(query)(hit));
        }
    }
}

/// The first values of a sequence occur no more often than in all of it.
proof fn first_values_occur_no_more<T>(values: Seq<T>, count: int, value: T)
    requires
        0 <= count <= values.len(),
    ensures
        values.take(count).to_multiset().count(value) <= values.to_multiset().count(value),
    decreases values.len() - count,
{
    broadcast use vstd::seq_lib::group_to_multiset_ensures;
    broadcast use vstd::multiset::group_multiset_axioms;

    if count < values.len() {
        first_values_occur_no_more(values, count + 1, value);
        assert(values.take(count + 1) =~= values.take(count).push(values[count]));
    } else {
        assert(values.take(count) =~= values);
    }
}

/// A row has the identifier that was looked up for a hit, and the distance of that
/// hit.
pub open spec fn stems_from(row: ExactHit, hits: Seq<ExactHit>, row_ids: Seq<u64>) -> bool {
    exists|k: int|
        0 <= k < hits.len() && #[trigger] row_ids[k] == row.row_address && hits[k].distance
            == row.distance
}

/// Identifiers take the place of addresses, and distances stay: each finished row
/// has the identifier that was looked up for a hit and the distance of that hit.
/// Rows are ranked by distance again, and at equal distances by identifier.
pub proof fn finished_rows_keep_their_distances(hits: Seq<ExactHit>, row_ids: Seq<u64>)
    requires
        hits.len() == row_ids.len(),
    ensures
        ({
            let finished = ascending(identified(hits, row_ids));
            &&& finished.len() == hits.len()
            &&& forall|i: int|
                0 <= i < finished.len() ==> stems_from(#[trigger] finished[i], hits, row_ids)
            &&& forall|k: int|
                0 <= k < hits.len() ==> finished.contains(
                    (ExactHit {
                        row_address: #[trigger] row_ids[k],
                        distance: hits[k].distance,
                    }),
                )
            &&& forall|i: int, j: int|
                0 <= i < j < finished.len() ==> {
                    let left = #[trigger] finished[i];
                    let right = #[trigger] finished[j];
                    ||| scalar::total_position(left.distance) < scalar::total_position(
                        right.distance,
                    )
                    ||| left.distance == right.distance && left.row_address <= right.row_address
                }
        }),
{
    let named = identified(hits, row_ids);
    let finished = ascending(named);
    ascending_is_sorted_permutation(named);
    assert forall|i: int| 0 <= i < finished.len() implies stems_from(
        #[trigger] finished[i],
        hits,
        row_ids,
    ) by {
        assert(finished.contains(finished[i]));
        let k = choose|k: int| 0 <= k < named.len() && named[k] == finished[i];
        assert(row_ids[k] == finished[i].row_address);
    }
    assert forall|k: int| 0 <= k < hits.len() implies finished.contains(
        (ExactHit { row_address: #[trigger] row_ids[k], distance: hits[k].distance }),
    ) by {
        assert(named.contains(named[k]));
    }
    assert forall|i: int, j: int| 0 <= i < j < finished.len() implies {
        let left = #[trigger] finished[i];
        let right = #[trigger] finished[j];
        ||| scalar::total_position(left.distance) < scalar::total_position(right.distance)
        ||| left.distance == right.distance && left.row_address <= right.row_address
    } by {
        assert(finished[i].before(finished[j]));
    }
}

/// Without a fallback the vectors of the best candidates are fetched, best first:
/// a candidate that is fetched scores at least as much as one that is not, and at
/// equal scores has the smaller address. As many are fetched as were asked for, or
/// all where there are fewer.
pub proof fn best_candidates_are_fetched(
    addresses: Seq<u64>,
    scores: Map<u64, u32>,
    requested: nat,
)
    requires
        fetches(addresses, scores, false, requested),
    ensures
        addresses.len() <= requested,
        addresses.len() < requested ==> forall|address: u64| #[trigger]
            scores.dom().contains(address) ==> addresses.contains(address),
        forall|i: int| 0 <= i < addresses.len() ==> scores.dom().contains(#[trigger] addresses[i]),
        forall|i: int, j: int|
            0 <= i < j < addresses.len() ==> {
                let left = #[trigger] addresses[i];
                let right = #[trigger] addresses[j];
                ||| scalar::total_position(scores[left]) > scalar::total_position(scores[right])
                ||| scores[left] == scores[right] && left < right
            },
        forall|i: int, other: u64|
            0 <= i < addresses.len() && scores.dom().contains(other) && !addresses.contains(other)
                ==> {
                let fetched = #[trigger] addresses[i];
                ||| scalar::total_position(scores[fetched]) > scalar::total_position(
                    #[trigger] scores[other],
                )
                ||| scores[fetched] == scores[other] && fetched < other
            },
{
    let rows = choose|rows: Seq<ScoredRow>| #[trigger]
        enumerates(rows, scores) && addresses == best_addresses(rows, requested);
    let sorted = ascending(rows);
    ascending_is_sorted_permutation(rows);
    rows.lemma_multiset_has_no_duplicates();
    sorted.lemma_multiset_has_no_duplicates_conv();
    assert forall|i: int| 0 <= i < sorted.len() implies scores.dom().contains(
        (#[trigger] sorted[i]).row_address,
    ) && scores[sorted[i].row_address] == sorted[i].score by {
        assert(sorted.contains(sorted[i]));
        assert(rows.contains(sorted[i]));
    }
    assert forall|i: int| 0 <= i < addresses.len() implies #[trigger] addresses[i]
        == sorted[i].row_address by {}
    assert forall|other: u64| #[trigger] scores.dom().contains(other) implies exists|p: int|
        0 <= p < sorted.len() && #[trigger] sorted[p] == (ScoredRow {
            row_address: other,
            score: scores[other],
        }) by {
        let row = ScoredRow { row_address: other, score: scores[other] };
        assert(rows.contains(row));
        assert(sorted.contains(row));
    }
    if addresses.len() < requested {
        assert forall|address: u64| #[trigger] scores.dom().contains(address) implies addresses.contains(
            address,
        ) by {
            let p = choose|p: int|
                0 <= p < sorted.len() && #[trigger] sorted[p] == (ScoredRow {
                    row_address: address,
                    score: scores[address],
                });
            assert(addresses[p] == address);
        }
    }
    assert forall|i: int, j: int| 0 <= i < j < addresses.len() implies {
        let left = #[trigger] addresses[i];
        let right = #[trigger] addresses[j];
        ||| scalar::total_position(scores[left]) > scalar::total_position(scores[right])
        ||| scores[left] == scores[right] && left < right
    } by {
        assert(sorted[i].before(sorted[j]));
        assert(sorted[i] != sorted[j]);
    }
    assert forall|i: int, other: u64|
        0 <= i < addresses.len() && scores.dom().contains(other) && !addresses.contains(
            other,
        ) implies {
        let fetched = #[trigger] addresses[i];
        ||| scalar::total_position(scores[fetched]) > scalar::total_position(
            #[trigger] scores[other],
        )
        ||| scores[fetched] == scores[other] && fetched < other
    } by {
        let p = choose|p: int|
            0 <= p < sorted.len() && #[trigger] sorted[p] == (ScoredRow {
                row_address: other,
                score: scores[other],
            });
        if p < addresses.len() {
            assert(addresses[p] == other);
        }
        assert(sorted[i].before(sorted[p]));
        assert(sorted[i] != sorted[p]);
    }
}

/// A query that scores all rows fetches every candidate, once and in order.
pub proof fn fallbacks_fetch_every_candidate(
    addresses: Seq<u64>,
    scores: Map<u64, u32>,
    requested: nat,
    address: u64,
)
    requires
        fetches(addresses, scores, true, requested),
    ensures
        addresses.contains(address) <==> scores.dom().contains(address),
        forall|i: int, j: int|
            0 <= i < j < addresses.len() ==> #[trigger] addresses[i] < #[trigger] addresses[j],
{
}

} // verus!
