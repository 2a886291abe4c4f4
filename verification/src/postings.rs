//! Inverted lists from coarse centroids to the documents that use them.

use crate::error::{Error, Fault, Result};
use crate::joined::{joined, joined_holds_part};
use crate::sort::{ascending, ascending_is_sorted_permutation, sort};
use crate::text::{decimal, text_three_numbers, text_two_numbers};
use vstd::prelude::*;

verus! {

/// Largest number of documents that a segment can hold.
pub const MAX_DOCUMENTS: u64 = 0xffff_ffff;

/// Each value is larger than every earlier one.
pub open spec fn strictly_increasing(values: Seq<u32>) -> bool {
    forall|i: int, j: int| 0 <= i < j < values.len() ==> #[trigger] values[i] < #[trigger] values[j]
}

/// Why more documents than a segment can hold are refused.
pub open spec fn too_many_documents(documents: nat) -> Fault {
    Fault::InvalidInput(
        "PLAID v1 supports at most "@ + decimal(MAX_DOCUMENTS as nat) + " documents, got "@
            + decimal(documents),
    )
}

/// The token codes of one document.
pub open spec fn document_codes(offsets: Seq<u64>, codes: Seq<u32>, document: int) -> Seq<u32> {
    codes.subrange(offsets[document] as int, offsets[document + 1] as int)
}

/// A value occurs in a sequence of codes.
pub open spec fn names(codes: Seq<u32>, code: int) -> bool {
    0 <= code <= u32::MAX && codes.contains(code as u32)
}

/// The smallest value that is not below a bound.
pub open spec fn smallest_from(values: Seq<u32>, bound: nat) -> Option<u32>
    decreases values.len(),
{
    if values.len() == 0 {
        None
    } else {
        let last = values.last();
        match smallest_from(values.drop_last(), bound) {
            None => if last >= bound {
                Some(last)
            } else {
                None
            },
            Some(smallest) => if last >= bound && last < smallest {
                Some(last)
            } else {
                Some(smallest)
            },
        }
    }
}

/// Why the tokens of one document cannot be posted.
pub open spec fn document_fault(
    centroids: nat,
    offsets: Seq<u64>,
    codes: Seq<u32>,
    document: int,
) -> Option<Fault> {
    let start = offsets[document];
    let end = offsets[document + 1];
    if start > usize::MAX || end > usize::MAX {
        Some(Fault::InvalidInput("document token offset does not fit usize"@))
    } else if start > end || end > codes.len() {
        Some(
            Fault::InvalidInput(
                "invalid token range "@ + decimal(start as nat) + ".."@ + decimal(end as nat)
                    + " for document "@ + decimal(document as nat),
            ),
        )
    } else {
        match smallest_from(document_codes(offsets, codes, document), centroids) {
            Some(code) => Some(
                Fault::InvalidInput(
                    "token code "@ + decimal(code as nat) + " is out of range for "@ + decimal(
                        centroids,
                    ) + " centroids"@,
                ),
            ),
            None => None,
        }
    }
}

/// The fault of the first document, from a position on, that has one.
pub open spec fn first_document_fault(
    centroids: nat,
    offsets: Seq<u64>,
    codes: Seq<u32>,
    document: int,
) -> Option<Fault>
    decreases offsets.len() - document,
{
    if document + 1 >= offsets.len() {
        None
    } else {
        match document_fault(centroids, offsets, codes, document) {
            Some(fault) => Some(fault),
            None => first_document_fault(centroids, offsets, codes, document + 1),
        }
    }
}

/// Why no posting lists can be built.
pub open spec fn postings_fault(centroids: nat, offsets: Seq<u64>, codes: Seq<u32>) -> Option<
    Fault,
> {
    if offsets.len() == 0 {
        Some(Fault::InvalidInput("document_offsets must contain at least one entry"@))
    } else if offsets.len() - 1 > MAX_DOCUMENTS {
        Some(too_many_documents((offsets.len() - 1) as nat))
    } else {
        first_document_fault(centroids, offsets, codes, 0)
    }
}

/// The documents below a bound that have a token with the given code, in
/// ascending order.
pub open spec fn documents_with(
    offsets: Seq<u64>,
    codes: Seq<u32>,
    code: int,
    documents: nat,
) -> Seq<u32>
    decreases documents,
{
    if documents == 0 {
        Seq::empty()
    } else {
        let last = (documents - 1) as nat;
        let earlier = documents_with(offsets, codes, code, last);
        if names(document_codes(offsets, codes, last as int), code) {
            earlier.push(last as u32)
        } else {
            earlier
        }
    }
}

/// The posting list of every centroid.
pub open spec fn posting_lists(centroids: nat, offsets: Seq<u64>, codes: Seq<u32>) -> Seq<
    Seq<u32>,
> {
    Seq::new(
        centroids,
        |c: int| documents_with(offsets, codes, c, (offsets.len() - 1) as nat),
    )
}

/// Where each list starts in the joined sequence, and where the last one ends.
pub open spec fn list_offsets(lists: Seq<Seq<u32>>) -> Seq<u64> {
    Seq::new(lists.len() + 1, |c: int| joined(lists, c as nat).len() as u64)
}

/// A posting list names exactly the documents that use its centroid, each once
/// and in ascending order.
pub proof fn postings_name_the_documents_of_a_centroid(
    offsets: Seq<u64>,
    codes: Seq<u32>,
    code: int,
    documents: nat,
)
    requires
        documents <= MAX_DOCUMENTS,
    ensures
        strictly_increasing(documents_with(offsets, codes, code, documents)),
        documents_with(offsets, codes, code, documents).len() <= documents,
        forall|document: u32| #[trigger]
            documents_with(offsets, codes, code, documents).contains(document) <==> document
                < documents && names(document_codes(offsets, codes, document as int), code),
    decreases documents,
{
    if documents > 0 {
        let last = (documents - 1) as nat;
        postings_name_the_documents_of_a_centroid(offsets, codes, code, last);
        let earlier = documents_with(offsets, codes, code, last);
        let list = documents_with(offsets, codes, code, documents);
        if names(document_codes(offsets, codes, last as int), code) {
            assert(list == earlier.push(last as u32));
            assert forall|i: int, j: int| 0 <= i < j < list.len() implies #[trigger] list[i]
                < #[trigger] list[j] by {
                assert(earlier.contains(list[i]));
            }
            assert forall|document: u32| #[trigger] list.contains(document) <==> document
                < documents && names(document_codes(offsets, codes, document as int), code) by {
                if list.contains(document) {
                    let i = choose|i: int| 0 <= i < list.len() && list[i] == document;
                    if i < earlier.len() {
                        assert(earlier.contains(document));
                    }
                }
                if document == last {
                    assert(list[list.len() - 1] == document);
                }
                if document < last && earlier.contains(document) {
                    let i = choose|i: int| 0 <= i < earlier.len() && earlier[i] == document;
                    assert(list[i] == document);
                }
            }
        } else {
            assert forall|document: u32| #[trigger] list.contains(document) <==> document
                < documents && names(document_codes(offsets, codes, document as int), code) by {
                assert(earlier.contains(document) <==> document < last && names(
                    document_codes(offsets, codes, document as int),
                    code,
                ));
            }
        }
    }
}

pub(crate) proof fn smallest_from_properties(values: Seq<u32>, bound: nat)
    ensures
        match smallest_from(values, bound) {
            None => forall|i: int| 0 <= i < values.len() ==> #[trigger] values[i] < bound,
            Some(smallest) => smallest >= bound && values.contains(smallest) && (forall|i: int|
                0 <= i < values.len() ==> #[trigger] values[i] < bound || values[i] >= smallest),
        },
    decreases values.len(),
{
    if values.len() > 0 {
        let earlier = values.drop_last();
        smallest_from_properties(earlier, bound);
        assert(values[values.len() - 1] == values.last());
        assert forall|i: int| 0 <= i < earlier.len() implies earlier[i] == #[trigger] values[i] by {}
        match smallest_from(earlier, bound) {
            None => {},
            Some(smallest) => {
                let i = choose|i: int| 0 <= i < earlier.len() && earlier[i] == smallest;
                assert(values[i] == smallest);
            },
        }
    }
}

/// Sorts codes and drops repeated ones.
fn distinct_codes(codes: &[u32], start: usize, end: usize) -> (result: Vec<u32>)
    requires
        start <= end <= codes@.len(),
    ensures
        strictly_increasing(result@),
        result@.len() <= end - start,
        forall|code: u32| #[trigger]
            result@.contains(code) <==> codes@.subrange(start as int, end as int).contains(code),
{
    let mut own: Vec<u32> = Vec::new();
    let mut i: usize = start;
    while i < end
        invariant
            start <= i <= end <= codes@.len(),
            own@ == codes@.subrange(start as int, i as int),
        decreases end - i,
    {
        own.push(codes[i]);
        i += 1;
        assert(own@ =~= codes@.subrange(start as int, i as int));
    }
    let sorted = sort(&own);
    proof {
        ascending_is_sorted_permutation(own@);
    }
    let mut result: Vec<u32> = Vec::new();
    let mut j: usize = 0;
    while j < sorted.len()
        invariant
            sorted@ == ascending(own@),
            sorted@.len() == own@.len(),
            forall|a: int, b: int|
                0 <= a < b < sorted@.len() ==> #[trigger] sorted@[a] <= #[trigger] sorted@[b],
            j <= sorted@.len(),
            result@.len() <= j,
            strictly_increasing(result@),
            j == 0 ==> result@.len() == 0,
            j > 0 ==> result@.len() > 0 && result@.last() == sorted@[j - 1],
            forall|code: u32| #[trigger]
                result@.contains(code) <==> sorted@.take(j as int).contains(code),
        decreases sorted@.len() - j,
    {
        let code: u32 = sorted[j];
        let ghost before = result@;
        let ghost prefix = sorted@.take(j as int);
        let ghost longer = sorted@.take(j + 1);
        assert(longer =~= prefix.push(code));
        let repeated = result.len() > 0 && result[result.len() - 1] == code;
        if !repeated {
            result.push(code);
            proof {
                if before.len() > 0 {
                    assert(before.last() == sorted@[j - 1]);
                    assert(sorted@[j - 1] <= sorted@[j as int]);
                }
                assert forall|a: int, b: int| 0 <= a < b < result@.len() implies #[trigger] result@[a]
                    < #[trigger] result@[b] by {
                    if b == before.len() && a < before.len() - 1 {
                        assert(before[a] < before[before.len() - 1]);
                    }
                }
            }
        }
        proof {
            assert forall|other: u32| #[trigger] result@.contains(other) <==> longer.contains(
                other,
            ) by {
                if result@.contains(other) {
                    let k = choose|k: int| 0 <= k < result@.len() && result@[k] == other;
                    if k < before.len() {
                        assert(before.contains(other));
                        let p = choose|p: int| 0 <= p < prefix.len() && prefix[p] == other;
                        assert(longer[p] == other);
                    } else {
                        assert(longer[j as int] == other);
                    }
                }
                if longer.contains(other) {
                    let p = choose|p: int| 0 <= p < longer.len() && longer[p] == other;
                    if p < j {
                        assert(prefix[p] == other);
                        assert(before.contains(other));
                        let k = choose|k: int| 0 <= k < before.len() && before[k] == other;
                        assert(result@[k] == other);
                    } else {
                        assert(result@[result@.len() - 1] == code);
                    }
                }
            }
        }
        j += 1;
    }
    assert(sorted@.take(j as int) =~= sorted@);
    result
}

/// How many entries the first lists hold together.
spec fn entry_count(lists: Seq<Vec<u32>>, count: nat) -> nat
    decreases count,
{
    if count == 0 {
        0
    } else {
        entry_count(lists, (count - 1) as nat) + lists[count - 1]@.len()
    }
}

proof fn entry_count_update(left: Seq<Vec<u32>>, right: Seq<Vec<u32>>, at: int, count: nat)
    requires
        left.len() == right.len(),
        count <= left.len(),
        0 <= at < left.len(),
        right[at]@.len() == left[at]@.len() + 1,
        forall|i: int| 0 <= i < left.len() && i != at ==> #[trigger] right[i] == left[i],
    ensures
        entry_count(right, count) == entry_count(left, count) + if at < count {
            1nat
        } else {
            0nat
        },
    decreases count,
{
    if count > 0 {
        entry_count_update(left, right, at, (count - 1) as nat);
    }
}

proof fn entry_count_zero(lists: Seq<Vec<u32>>, count: nat)
    requires
        count <= lists.len(),
        forall|i: int| 0 <= i < lists.len() ==> (#[trigger] lists[i])@.len() == 0,
    ensures
        entry_count(lists, count) == 0,
    decreases count,
{
    if count > 0 {
        entry_count_zero(lists, (count - 1) as nat);
    }
}

/// What the working lists hold once some documents are posted and a prefix of
/// the next document's codes is.
spec fn partly_posted(
    lists: Seq<Vec<u32>>,
    offsets: Seq<u64>,
    codes: Seq<u32>,
    document: nat,
    posted: Seq<u32>,
) -> bool {
    forall|c: int|
        0 <= c < lists.len() ==> (#[trigger] lists[c])@ == if names(posted, c) {
            documents_with(offsets, codes, c, document).push(document as u32)
        } else {
            documents_with(offsets, codes, c, document)
        }
}

/// Posts one document.
fn post_document(
    lists: &mut Vec<Vec<u32>>,
    offsets: &[u64],
    codes: &[u32],
    document: usize,
) -> (result: Result<()>)
    requires
        document + 1 < offsets@.len(),
        document < MAX_DOCUMENTS,
        old(lists)@.len() <= usize::MAX,
        partly_posted(old(lists)@, offsets@, codes@, document as nat, Seq::empty()),
    ensures
        final(lists)@.len() == old(lists)@.len(),
        match result {
            Ok(()) => {
                &&& document_fault(old(lists)@.len(), offsets@, codes@, document as int) is None
                &&& partly_posted(
                    final(lists)@,
                    offsets@,
                    codes@,
                    (document + 1) as nat,
                    Seq::empty(),
                )
                &&& offsets@[document as int] <= offsets@[document + 1] <= codes@.len()
                &&& entry_count(final(lists)@, final(lists)@.len()) <= entry_count(
                    old(lists)@,
                    old(lists)@.len(),
                ) + (offsets@[document + 1] - offsets@[document as int])
            },
            Err(error) => document_fault(old(lists)@.len(), offsets@, codes@, document as int)
                == Some(error@),
        },
{
    let ghost start_lists = lists@;
    if offsets[document] > usize::MAX as u64 || offsets[document + 1] > usize::MAX as u64 {
        return Err(Error::invalid("document token offset does not fit usize"));
    }
    let start: usize = offsets[document] as usize;
    let end: usize = offsets[document + 1] as usize;
    if start > end || end > codes.len() {
        return Err(
            Error::InvalidInput(
                text_three_numbers(
                    "invalid token range ",
                    start as u64,
                    "..",
                    end as u64,
                    " for document ",
                    document as u64,
                ),
            ),
        );
    }
    let unique_codes = distinct_codes(codes, start, end);
    let ghost own = document_codes(offsets@, codes@, document as int);
    proof {
        smallest_from_properties(own, start_lists.len());
        assert(unique_codes@.take(0) =~= Seq::<u32>::empty());
    }
    let mut k: usize = 0;
    while k < unique_codes.len()
        invariant
            k <= unique_codes@.len(),
            start_lists == old(lists)@,
            lists@.len() == start_lists.len(),
            document < MAX_DOCUMENTS,
            own == document_codes(offsets@, codes@, document as int),
            strictly_increasing(unique_codes@),
            forall|code: u32| #[trigger] unique_codes@.contains(code) <==> own.contains(code),
            match smallest_from(own, start_lists.len()) {
                None => forall|i: int| 0 <= i < own.len() ==> #[trigger] own[i] < start_lists.len(),
                Some(smallest) => smallest >= start_lists.len() && own.contains(smallest) && (
                forall|i: int|
                    0 <= i < own.len() ==> #[trigger] own[i] < start_lists.len() || own[i]
                        >= smallest),
            },
            offsets@[document as int] <= usize::MAX,
            offsets@[document + 1] <= usize::MAX,
            offsets@[document as int] <= offsets@[document + 1] <= codes@.len(),
            forall|i: int| 0 <= i < k ==> #[trigger] unique_codes@[i] < start_lists.len(),
            partly_posted(
                lists@,
                offsets@,
                codes@,
                document as nat,
                unique_codes@.take(k as int),
            ),
            entry_count(lists@, lists@.len()) == entry_count(start_lists, start_lists.len()) + k,
        decreases unique_codes@.len() - k,
    {
        let centroid: u32 = unique_codes[k];
        assert(unique_codes@.contains(centroid));
        let ghost posted_in = choose_index(own, centroid);
        if centroid as usize >= lists.len() {
            let mut text = text_two_numbers(
                "token code ",
                centroid as u64,
                " is out of range for ",
                lists.len() as u64,
            );
            text.push_str(" centroids");
            proof {
                match smallest_from(own, start_lists.len()) {
                    None => {
                        assert(own[posted_in] < start_lists.len());
                    },
                    Some(smallest) => {
                        assert(own[posted_in] >= smallest);
                        assert(unique_codes@.contains(smallest));
                        let p = choose|p: int|
                            0 <= p < unique_codes@.len() && unique_codes@[p] == smallest;
                        if p < k {
                            assert(unique_codes@[p] < start_lists.len());
                        } else if p > k {
                            assert(unique_codes@[k as int] < unique_codes@[p]);
                        }
                        assert(smallest == centroid);
                    },
                }
            }
            return Err(Error::InvalidInput(text));
        }
        let ghost before = lists@;
        let ghost prefix = unique_codes@.take(k as int);
        let ghost longer = unique_codes@.take(k + 1);
        lists[centroid as usize].push(document as u32);
        proof {
            assert(longer =~= prefix.push(centroid));
            entry_count_update(before, lists@, centroid as int, lists@.len());
            assert forall|c: int| 0 <= c < lists@.len() implies (#[trigger] lists@[c])@
                == if names(longer, c) {
                documents_with(offsets@, codes@, c, document as nat).push(document as u32)
            } else {
                documents_with(offsets@, codes@, c, document as nat)
            } by {
                if c == centroid {
                    assert(longer[k as int] == centroid);
                    if prefix.contains(centroid) {
                        let p = choose|p: int| 0 <= p < prefix.len() && prefix[p] == centroid;
                        assert(unique_codes@[p] < unique_codes@[k as int]);
                    }
                    assert(before[c]@ == documents_with(
                        offsets@,
                        codes@,
                        centroid as int,
                        document as nat,
                    ));
                } else {
                    assert(lists@[c] == before[c]);
                    if names(longer, c) {
                        let p = choose|p: int| 0 <= p < longer.len() && longer[p] == c as u32;
                        assert(p < k);
                        assert(prefix[p] == c as u32);
                    }
                    if names(prefix, c) {
                        let p = choose|p: int| 0 <= p < prefix.len() && prefix[p] == c as u32;
                        assert(longer[p] == c as u32);
                    }
                }
            }
        }
        k += 1;
    }
    proof {
        assert(unique_codes@.take(k as int) =~= unique_codes@);
        match smallest_from(own, start_lists.len()) {
            None => {},
            Some(smallest) => {
                assert(unique_codes@.contains(smallest));
                let p = choose|p: int| 0 <= p < unique_codes@.len() && unique_codes@[p] == smallest;
                assert(unique_codes@[p] < start_lists.len());
            },
        }
        assert forall|c: int| 0 <= c < lists@.len() implies (#[trigger] lists@[c])@
            == documents_with(offsets@, codes@, c, (document + 1) as nat) by {
            assert(0 <= c <= u32::MAX ==> (unique_codes@.contains(c as u32) <==> own.contains(c as u32)));
        }
    }
    Ok(())
}

/// The position of a value that occurs in a sequence.
proof fn choose_index(values: Seq<u32>, value: u32) -> (result: int)
    requires
        values.contains(value),
    ensures
        0 <= result < values.len(),
        values[result] == value,
{
    choose|i: int| 0 <= i < values.len() && values[i] == value
}

proof fn fault_of_later_documents(centroids: nat, offsets: Seq<u64>, codes: Seq<u32>, document: int)
    requires
        0 <= document < offsets.len(),
        forall|d: int|
            0 <= d < document ==> #[trigger] document_fault(centroids, offsets, codes, d) is None,
    ensures
        first_document_fault(centroids, offsets, codes, 0) == first_document_fault(
            centroids,
            offsets,
            codes,
            document,
        ),
    decreases document,
{
    if document > 0 {
        fault_of_later_documents(centroids, offsets, codes, document - 1);
        assert(document_fault(centroids, offsets, codes, document - 1) is None);
    }
}

proof fn joined_len(lists: Seq<Vec<u32>>, views: Seq<Seq<u32>>, count: nat)
    requires
        count <= lists.len(),
        views.len() == lists.len(),
        forall|i: int| 0 <= i < lists.len() ==> #[trigger] views[i] == lists[i]@,
    ensures
        joined(views, count).len() == entry_count(lists, count),
    decreases count,
{
    if count > 0 {
        joined_len(lists, views, (count - 1) as nat);
    }
}

/// Builds the posting lists of a segment: where each centroid's list starts,
/// and all lists one after the other.
pub fn build_postings(num_centroids: usize, document_offsets: &[u64], token_codes: &[u32]) -> (result:
    Result<(Vec<u64>, Vec<u32>)>)
    ensures
        match result {
            Ok((posting_offsets, postings)) => {
                let lists = posting_lists(
                    num_centroids as nat,
                    document_offsets@,
                    token_codes@,
                );
                &&& postings_fault(num_centroids as nat, document_offsets@, token_codes@) is None
                &&& posting_offsets@ == list_offsets(lists)
                &&& postings@ == joined(lists, lists.len())
                &&& postings@.len() <= token_codes@.len()
            },
            Err(error) => postings_fault(num_centroids as nat, document_offsets@, token_codes@)
                == Some(error@),
        },
{
    if document_offsets.len() == 0 {
        return Err(Error::invalid("document_offsets must contain at least one entry"));
    }
    let num_documents: usize = document_offsets.len() - 1;
    if num_documents as u64 > MAX_DOCUMENTS {
        return Err(
            Error::InvalidInput(
                text_two_numbers(
                    "PLAID v1 supports at most ",
                    MAX_DOCUMENTS,
                    " documents, got ",
                    num_documents as u64,
                ),
            ),
        );
    }
    let mut lists: Vec<Vec<u32>> = Vec::new();
    let mut c: usize = 0;
    while c < num_centroids
        invariant
            c <= num_centroids,
            lists@.len() == c,
            forall|i: int| 0 <= i < lists@.len() ==> (#[trigger] lists@[i])@ == Seq::<u32>::empty(),
        decreases num_centroids - c,
    {
        lists.push(Vec::new());
        c += 1;
    }
    proof {
        entry_count_zero(lists@, lists@.len());
        assert(partly_posted(lists@, document_offsets@, token_codes@, 0, Seq::empty()));
    }
    let mut document: usize = 0;
    while document < num_documents
        invariant
            num_documents + 1 == document_offsets@.len(),
            num_documents <= MAX_DOCUMENTS,
            document <= num_documents,
            lists@.len() == num_centroids,
            partly_posted(
                lists@,
                document_offsets@,
                token_codes@,
                document as nat,
                Seq::empty(),
            ),
            forall|d: int|
                0 <= d < document ==> #[trigger] document_fault(
                    num_centroids as nat,
                    document_offsets@,
                    token_codes@,
                    d,
                ) is None,
            document > 0 ==> document_offsets@[document as int] <= token_codes@.len(),
            entry_count(lists@, lists@.len()) <= document_offsets@[document as int],
            document == 0 ==> entry_count(lists@, lists@.len()) == 0,
        decreases num_documents - document,
    {
        proof {
            fault_of_later_documents(
                num_centroids as nat,
                document_offsets@,
                token_codes@,
                document as int,
            );
        }
        match post_document(&mut lists, document_offsets, token_codes, document) {
            Ok(()) => {},
            Err(error) => {
                return Err(error);
            },
        }
        document += 1;
    }
    let ghost views = posting_lists(num_centroids as nat, document_offsets@, token_codes@);
    proof {
        fault_of_later_documents(
            num_centroids as nat,
            document_offsets@,
            token_codes@,
            num_documents as int,
        );
        assert forall|i: int| 0 <= i < lists@.len() implies #[trigger] views[i] == lists@[i]@ by {
            assert(lists@[i]@ == documents_with(
                document_offsets@,
                token_codes@,
                i,
                num_documents as nat,
            ));
        }
        joined_len(lists@, views, lists@.len());
    }
    let mut posting_offsets: Vec<u64> = Vec::new();
    let mut postings: Vec<u32> = Vec::new();
    posting_offsets.push(0);
    let mut position: usize = 0;
    while position < lists.len()
        invariant
            lists@.len() == num_centroids,
            views.len() == lists@.len(),
            forall|i: int| 0 <= i < lists@.len() ==> #[trigger] views[i] == lists@[i]@,
            position <= lists@.len(),
            postings@ == joined(views, position as nat),
            posting_offsets@.len() == position + 1,
            forall|i: int|
                0 <= i <= position ==> #[trigger] posting_offsets@[i] == joined(
                    views,
                    i as nat,
                ).len() as u64,
        decreases lists@.len() - position,
    {
        assert(views[position as int] == lists@[position as int]@);
        postings.extend_from_slice(lists[position].as_slice());
        assert(postings@ =~= joined(views, (position + 1) as nat));
        posting_offsets.push(postings.len() as u64);
        position += 1;
    }
    assert(posting_offsets@ =~= list_offsets(views));
    Ok((posting_offsets, postings))
}

/// The list of a centroid stands between its offset and the next one.
pub proof fn posting_range_is_posting_list(lists: Seq<Seq<u32>>, centroid: int)
    requires
        0 <= centroid < lists.len(),
        joined(lists, lists.len()).len() <= u64::MAX,
    ensures
        list_offsets(lists)[centroid] <= list_offsets(lists)[centroid + 1] <= joined(
            lists,
            lists.len(),
        ).len(),
        joined(lists, lists.len()).subrange(
            list_offsets(lists)[centroid] as int,
            list_offsets(lists)[centroid + 1] as int,
        ) == lists[centroid],
{
    joined_holds_part(lists, centroid, lists.len());
}

/// Documents are posted exactly where there are offsets for at most as many
/// documents as numbers can name, every offset is at most the next and the number of
/// codes, and every code of a document is below the number of centroids.
pub proof fn posted_documents_have_known_codes(centroids: nat, offsets: Seq<u64>, codes: Seq<u32>)
    requires
        codes.len() <= usize::MAX,
    ensures
        postings_fault(centroids, offsets, codes) is None <==> {
            &&& 1 <= offsets.len() <= 0x1_0000_0000
            &&& forall|document: int|
                0 <= document < offsets.len() - 1 ==> #[trigger] known_codes(
                    centroids,
                    offsets,
                    codes,
                    document,
                )
        },
{
    documents_from_have_known_codes(centroids, offsets, codes, 0);
}

/// The codes of a document lie among all codes, and each names a centroid.
pub open spec fn known_codes(
    centroids: nat,
    offsets: Seq<u64>,
    codes: Seq<u32>,
    document: int,
) -> bool {
    &&& offsets[document] <= offsets[document + 1] <= codes.len()
    &&& forall|token: int|
        offsets[document] <= token < offsets[document + 1] ==> #[trigger] codes[token] < centroids
}

proof fn documents_from_have_known_codes(
    centroids: nat,
    offsets: Seq<u64>,
    codes: Seq<u32>,
    from: int,
)
    requires
        codes.len() <= usize::MAX,
        0 <= from,
    ensures
        first_document_fault(centroids, offsets, codes, from) is None <==> forall|document: int|
            from <= document < offsets.len() - 1 ==> #[trigger] known_codes(
                centroids,
                offsets,
                codes,
                document,
            ),
    decreases offsets.len() - from,
{
    if from + 1 < offsets.len() {
        let start = offsets[from] as int;
        let end = offsets[from + 1] as int;
        if start <= end <= codes.len() {
            let own = document_codes(offsets, codes, from);
            smallest_code_is_reported(own, centroids);
            if smallest_from(own, centroids) is None {
                assert forall|token: int| start <= token < end implies #[trigger] codes[token]
                    < centroids by {
                    assert(own[token - start] == codes[token]);
                }
            } else {
                let place = choose|place: int|
                    0 <= place < own.len() && own[place] == smallest_from(own, centroids)->0;
                assert(codes[start + place] == own[place]);
            }
        }
        documents_from_have_known_codes(centroids, offsets, codes, from + 1);
        assert(document_fault(centroids, offsets, codes, from) is None <==> known_codes(
            centroids,
            offsets,
            codes,
            from,
        ));
    }
}

/// Of the codes that name no centroid the smallest is reported.
pub proof fn smallest_code_is_reported(values: Seq<u32>, bound: nat)
    ensures
        match smallest_from(values, bound) {
            Some(smallest) => smallest >= bound && values.contains(smallest) && forall|i: int|
                0 <= i < values.len() && #[trigger] values[i] >= bound ==> smallest <= values[i],
            None => forall|i: int| 0 <= i < values.len() ==> #[trigger] values[i] < bound,
        },
    decreases values.len(),
{
    if values.len() > 0 {
        let shorter = values.drop_last();
        let last = values.len() - 1;
        smallest_code_is_reported(shorter, bound);
        assert(values[last] == values.last());
        if let Some(smallest) = smallest_from(shorter, bound) {
            let place = choose|place: int| 0 <= place < shorter.len() && shorter[place] == smallest;
            assert(values[place] == smallest);
        }
        assert forall|i: int| 0 <= i < last implies #[trigger] values[i] == shorter[i] by {}
    }
}

} // verus!
