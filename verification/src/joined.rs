//! Sequences joined from parts.

use vstd::prelude::*;

verus! {

/// The first parts one after the other.
pub open spec fn joined<T>(parts: Seq<Seq<T>>, count: nat) -> Seq<T>
    decreases count,
{
    if count == 0 {
        Seq::empty()
    } else {
        joined(parts, (count - 1) as nat) + parts[count - 1]
    }
}

proof fn joined_extends<T>(parts: Seq<Seq<T>>, count: nat, total: nat)
    requires
        count <= total <= parts.len(),
    ensures
        joined(parts, count).len() <= joined(parts, total).len(),
        joined(parts, total).take(joined(parts, count).len() as int) == joined(parts, count),
    decreases total,
{
    let start = joined(parts, count);
    if count < total {
        joined_extends(parts, count, (total - 1) as nat);
        let shorter = joined(parts, (total - 1) as nat);
        assert(joined(parts, total).take(start.len() as int) =~= shorter.take(start.len() as int));
    } else {
        assert(joined(parts, total).take(start.len() as int) =~= start);
    }
}

/// Appending one part to the earlier ones.
pub proof fn joined_step<T>(start: Seq<T>, parts: Seq<Seq<T>>, count: nat)
    ensures
        (start + joined(parts, count)) + parts[count as int] == start + joined(
            parts,
            (count + 1) as nat,
        ),
{
    assert((start + joined(parts, count)) + parts[count as int] =~= start + joined(
        parts,
        (count + 1) as nat,
    ));
}

/// Each part stands behind all earlier ones.
pub proof fn joined_holds_part<T>(parts: Seq<Seq<T>>, part: int, total: nat)
    requires
        0 <= part < total <= parts.len(),
    ensures
        joined(parts, part as nat).len() + parts[part].len() == joined(
            parts,
            (part + 1) as nat,
        ).len(),
        joined(parts, (part + 1) as nat).len() <= joined(parts, total).len(),
        joined(parts, total).subrange(
            joined(parts, part as nat).len() as int,
            joined(parts, (part + 1) as nat).len() as int,
        ) == parts[part],
{
    joined_extends(parts, (part + 1) as nat, total);
    let whole = joined(parts, total);
    let shorter = joined(parts, (part + 1) as nat);
    let start = joined(parts, part as nat).len() as int;
    assert(shorter == joined(parts, part as nat) + parts[part]);
    assert forall|i: int| 0 <= i < shorter.len() implies whole[i] == #[trigger] shorter[i] by {
        assert(whole.take(shorter.len() as int)[i] == whole[i]);
    }
    assert forall|i: int| 0 <= i < parts[part].len() implies shorter[start + i]
        == #[trigger] parts[part][i] by {}
    assert(whole.subrange(start, shorter.len() as int) =~= parts[part]);
}

/// Marks that stand at the ends of consecutive parts.
pub open spec fn marks_parts<T>(marks: Seq<int>, parts: Seq<Seq<T>>) -> bool {
    &&& marks.len() == parts.len() + 1
    &&& forall|i: int|
        0 <= i < parts.len() ==> #[trigger] marks[i] + (#[trigger] parts[i]).len() == marks[i + 1]
}

/// Parts lie between their marks when they are joined.
pub proof fn joined_between_marks<T>(marks: Seq<int>, parts: Seq<Seq<T>>, part: int)
    requires
        marks_parts(marks, parts),
        0 <= part < parts.len(),
    ensures
        joined(parts, parts.len()).len() == marks[parts.len() as int] - marks[0],
        marks[0] <= marks[part] <= marks[part + 1] <= marks[parts.len() as int],
        joined(parts, parts.len()).subrange(
            marks[part] - marks[0],
            marks[part + 1] - marks[0],
        ) == parts[part],
{
    joined_marks(marks, parts, part as nat);
    joined_marks(marks, parts, (part + 1) as nat);
    joined_marks(marks, parts, parts.len());
    joined_holds_part(parts, part, parts.len());
}

/// Parts lie between their marks when they are joined behind a head that ends at
/// the first mark.
pub proof fn joined_behind_head<T>(head: Seq<T>, marks: Seq<int>, parts: Seq<Seq<T>>, part: int)
    requires
        marks_parts(marks, parts),
        marks[0] == head.len(),
        0 <= part < parts.len(),
    ensures
        (head + joined(parts, parts.len())).len() == marks[parts.len() as int],
        head.len() <= marks[part] <= marks[part + 1] <= marks[parts.len() as int],
        (head + joined(parts, parts.len())).subrange(marks[part], marks[part + 1]) == parts[part],
{
    joined_between_marks(marks, parts, part);
    assert((head + joined(parts, parts.len())).subrange(marks[part], marks[part + 1]) =~= joined(
        parts,
        parts.len(),
    ).subrange(marks[part] - marks[0], marks[part + 1] - marks[0]));
}

proof fn joined_marks<T>(marks: Seq<int>, parts: Seq<Seq<T>>, count: nat)
    requires
        marks_parts(marks, parts),
        count <= parts.len(),
    ensures
        joined(parts, count).len() == marks[count as int] - marks[0],
    decreases count,
{
    if count > 0 {
        joined_marks(marks, parts, (count - 1) as nat);
        assert(marks[count - 1] + parts[count - 1].len() == marks[count - 1 + 1]);
    }
}

/// Parts that are the pieces of a sequence between consecutive marks.
pub open spec fn pieces<T>(whole: Seq<T>, marks: Seq<int>, parts: Seq<Seq<T>>) -> bool {
    &&& marks.len() == parts.len() + 1
    &&& 0 <= marks[0] <= whole.len()
    &&& forall|i: int|
        #![trigger parts[i]]
        0 <= i < parts.len() ==> {
            &&& 0 <= marks[i] <= marks[i + 1] <= whole.len()
            &&& parts[i] == whole.subrange(marks[i], marks[i + 1])
        }
}

/// Joining consecutive pieces of a sequence gives the sequence back.
pub proof fn joined_pieces<T>(whole: Seq<T>, marks: Seq<int>, parts: Seq<Seq<T>>, count: nat)
    requires
        pieces(whole, marks, parts),
        count <= parts.len(),
    ensures
        marks[0] <= marks[count as int] <= whole.len(),
        joined(parts, count) == whole.subrange(marks[0], marks[count as int]),
    decreases count,
{
    if count > 0 {
        joined_pieces(whole, marks, parts, (count - 1) as nat);
        assert(parts[count - 1] == whole.subrange(marks[count - 1], marks[count - 1 + 1]));
        assert(joined(parts, count) =~= whole.subrange(marks[0], marks[count as int]));
    } else {
        assert(joined(parts, count) =~= whole.subrange(marks[0], marks[0]));
    }
}

} // verus!
