//! Residual packing with two or four bits per dimension.

use crate::error::{Error, Fault, Result};
use crate::matrix::{Grid, Matrix};
use crate::scalar;
use crate::text::{decimal, text_number, text_two_numbers};
use vstd::prelude::*;

verus! {

/// A quantizer as a mathematical object.
#[verifier::ext_equal]
pub struct Codebook {
    pub nbits: u8,
    pub cutoffs: Seq<u32>,
    pub weights: Seq<u32>,
}

/// Number of buckets of a quantizer: two to the power of `nbits`.
pub open spec fn bucket_count(nbits: u8) -> nat {
    if nbits == 2 {
        4
    } else {
        16
    }
}

/// Every value is finite.
pub open spec fn all_finite(values: Seq<u32>) -> bool {
    forall|i: int| 0 <= i < values.len() ==> scalar::finite(#[trigger] values[i])
}

/// Values do not decrease from one position to a later one.
pub open spec fn numerically_ascending(values: Seq<u32>) -> bool {
    forall|i: int, j: int|
        0 <= i <= j < values.len() ==> scalar::number(#[trigger] values[i]) <= scalar::number(
            #[trigger] values[j],
        )
}

/// Why no quantizer can be made of these parts.
pub open spec fn codebook_fault(book: Codebook) -> Option<Fault> {
    let buckets = bucket_count(book.nbits);
    if book.nbits != 2 && book.nbits != 4 {
        Some(Fault::InvalidInput("nbits must be 2 or 4, got "@ + decimal(book.nbits as nat)))
    } else if book.cutoffs.len() != buckets - 1 {
        Some(
            Fault::InvalidInput(
                "bucket_cutoffs length must be "@ + decimal((buckets - 1) as nat) + ", got "@
                    + decimal(book.cutoffs.len()),
            ),
        )
    } else if book.weights.len() != buckets {
        Some(
            Fault::InvalidInput(
                "bucket_weights length must be "@ + decimal(buckets) + ", got "@ + decimal(
                    book.weights.len(),
                ),
            ),
        )
    } else if !all_finite(book.cutoffs) || !all_finite(book.weights) {
        Some(Fault::InvalidInput("bucket cutoffs and weights must be finite"@))
    } else if !numerically_ascending(book.cutoffs) {
        Some(Fault::InvalidInput("bucket_cutoffs must be sorted in ascending order"@))
    } else {
        None
    }
}

impl Codebook {
    /// The parts make up a quantizer.
    pub open spec fn wf(self) -> bool {
        codebook_fault(self) is None
    }

    /// Bytes that one packed vector takes.
    pub open spec fn packed_len(self, dimension: nat) -> nat {
        dimension * (self.nbits as nat) / 8
    }

    /// Why vectors of a dimension cannot be packed into whole bytes.
    pub open spec fn packing_fault(self, dimension: nat) -> Option<Fault> {
        if dimension * (self.nbits as nat) > usize::MAX {
            Some(Fault::InvalidInput("residual bit count overflowed usize"@))
        } else if dimension * (self.nbits as nat) % 8 != 0 {
            Some(
                Fault::InvalidInput(
                    "dimension * nbits must be divisible by 8, got dimension="@ + decimal(dimension)
                        + ", nbits="@ + decimal(self.nbits as nat),
                ),
            )
        } else {
            None
        }
    }

    /// The bucket of a residual: how many leading cutoffs lie below it.
    pub open spec fn bucket(self, value: u32) -> nat {
        leading_below(self.cutoffs, value)
    }

    /// `packed` holds the buckets of `values`. The buckets follow each other
    /// without gaps, each with its least significant bit first, and the bits
    /// fill every byte from the most significant position down.
    pub open spec fn packs(self, values: Seq<u32>, packed: Seq<u8>) -> bool {
        &&& packed.len() * 8 == values.len() * self.nbits
        &&& forall|index: int, bit: int|
            #![trigger bucket_bit(self.bucket(values[index]), bit), packed_bit(packed, index * self.nbits + bit)]
            0 <= index < values.len() && 0 <= bit < self.nbits ==> packed_bit(
                packed,
                index * self.nbits + bit,
            ) == bucket_bit(self.bucket(values[index]), bit)
    }

    /// The bucket that `packed` holds at an index.
    pub open spec fn unpacked(self, packed: Seq<u8>, index: int) -> nat {
        bits_value(packed, index * self.nbits, self.nbits as nat)
    }
}

/// How many values at the front of `cutoffs` lie below `value`.
pub open spec fn leading_below(cutoffs: Seq<u32>, value: u32) -> nat
    decreases cutoffs.len(),
{
    if cutoffs.len() == 0 || !scalar::greater(value, cutoffs[0]) {
        0
    } else {
        1 + leading_below(cutoffs.drop_first(), value)
    }
}

/// One bit of a bucket number, counted from the least significant.
pub open spec fn bucket_bit(bucket: nat, bit: int) -> nat {
    if bit == 0 {
        bucket % 2
    } else if bit == 1 {
        (bucket / 2) % 2
    } else if bit == 2 {
        (bucket / 4) % 2
    } else {
        (bucket / 8) % 2
    }
}

/// One bit of a byte sequence. Bytes are read in order, each from its most
/// significant bit down.
pub open spec fn packed_bit(packed: Seq<u8>, position: int) -> nat {
    byte_bit(packed[position / 8], (7 - position % 8) as u8) as nat
}

/// One bit of a byte, counted from the least significant.
pub open spec fn byte_bit(byte: u8, position: u8) -> u8 {
    (byte >> position) & 1
}

/// The number whose bits, least significant first, start at a position.
pub open spec fn bits_value(packed: Seq<u8>, start: int, count: nat) -> nat
    decreases count,
{
    if count == 0 {
        0
    } else {
        packed_bit(packed, start) + 2 * bits_value(packed, start + 1, (count - 1) as nat)
    }
}

/// The cutoffs below a value are exactly those before its bucket.
pub proof fn bucket_separates_cutoffs(cutoffs: Seq<u32>, value: u32)
    requires
        all_finite(cutoffs),
        numerically_ascending(cutoffs),
    ensures
        leading_below(cutoffs, value) <= cutoffs.len(),
        forall|i: int|
            0 <= i < cutoffs.len() ==> (scalar::greater(value, #[trigger] cutoffs[i]) <==> i
                < leading_below(cutoffs, value)),
    decreases cutoffs.len(),
{
    if cutoffs.len() > 0 && scalar::greater(value, cutoffs[0]) {
        let rest = cutoffs.drop_first();
        assert(all_finite(rest));
        assert(numerically_ascending(rest));
        bucket_separates_cutoffs(rest, value);
        assert forall|i: int| 0 <= i < cutoffs.len() implies (scalar::greater(
            value,
            #[trigger] cutoffs[i],
        ) <==> i < leading_below(cutoffs, value)) by {
            if i > 0 {
                assert(rest[i - 1] == cutoffs[i]);
            }
        }
    }
}

/// Setting one clear bit of a byte leaves the other bits as they were.
proof fn set_byte_bit(byte: u8, bit: u8, position: u8, other: u8)
    requires
        bit <= 1,
        position < 8,
        other < 8,
        byte_bit(byte, position) == 0,
    ensures
        byte_bit(byte | (bit << position), other) == if other == position {
            bit
        } else {
            byte_bit(byte, other)
        },
{
    assert(((byte | (bit << position)) >> other) & 1 == if other == position {
        bit
    } else {
        (byte >> other) & 1
    }) by (bit_vector)
        requires
            bit <= 1,
            position < 8,
            other < 8,
            (byte >> position) & 1 == 0,
    ;
}

proof fn byte_bit_is_bit(byte: u8, position: u8)
    requires
        position < 8,
    ensures
        byte_bit(byte, position) <= 1,
        byte_bit(0, position) == 0,
{
    assert((byte >> position) & 1 <= 1) by (bit_vector);
    assert((0u8 >> position) & 1 == 0) by (bit_vector);
}

/// A bucket number that fits the width is the sum of its bits.
proof fn bits_make_bucket(packed: Seq<u8>, start: int, nbits: u8, bucket: nat)
    requires
        nbits == 2 || nbits == 4,
        bucket < bucket_count(nbits),
        forall|bit: int|
            0 <= bit < nbits ==> #[trigger] packed_bit(packed, start + bit) == bucket_bit(
                bucket,
                bit,
            ),
    ensures
        bits_value(packed, start, nbits as nat) == bucket,
{
    reveal_with_fuel(bits_value, 5);
    assert(packed_bit(packed, start + 0) == bucket_bit(bucket, 0));
    assert(packed_bit(packed, start + 1) == bucket_bit(bucket, 1));
    assert(start + 1 + 1 == start + 2);
    assert(start + 1 + 1 + 1 == start + 3);
    if nbits == 4 {
        assert(packed_bit(packed, start + 2) == bucket_bit(bucket, 2));
        assert(packed_bit(packed, start + 3) == bucket_bit(bucket, 3));
    }
}

/// Unpacking gives back the bucket of every packed residual.
pub proof fn unpacking_undoes_packing(book: Codebook, values: Seq<u32>, packed: Seq<u8>, index: int)
    requires
        book.wf(),
        book.packs(values, packed),
        0 <= index < values.len(),
    ensures
        book.unpacked(packed, index) == book.bucket(values[index]),
{
    bucket_separates_cutoffs(book.cutoffs, values[index]);
    let bucket = book.bucket(values[index]);
    assert forall|bit: int| 0 <= bit < book.nbits implies #[trigger] packed_bit(
        packed,
        index * book.nbits + bit,
    ) == bucket_bit(bucket, bit) by {
        assert(bucket_bit(book.bucket(values[index]), bit) == bucket_bit(bucket, bit));
    }
    bits_make_bucket(packed, index * book.nbits, book.nbits, bucket);
}

/// Executable form of [`bucket_bit`].
fn to_bucket_bit(bucket: usize, bit: u8) -> (result: u8)
    requires
        bit < 4,
    ensures
        result == bucket_bit(bucket as nat, bit as int),
        result <= 1,
{
    if bit == 0 {
        (bucket % 2) as u8
    } else if bit == 1 {
        (bucket / 2 % 2) as u8
    } else if bit == 2 {
        (bucket / 4 % 2) as u8
    } else {
        (bucket / 8 % 2) as u8
    }
}

/// Writes one bit where a byte still holds a zero. The offset counts from the
/// most significant bit of the byte.
fn write_bit(packed: &mut Vec<u8>, byte_index: usize, offset: u8, bit: u8)
    requires
        bit <= 1,
        byte_index < old(packed)@.len(),
        offset < 8,
        packed_bit(old(packed)@, byte_index * 8 + offset) == 0,
    ensures
        final(packed)@.len() == old(packed)@.len(),
        forall|other: int|
            0 <= other < final(packed)@.len() * 8 ==> #[trigger] packed_bit(final(packed)@, other)
                == if other == byte_index * 8 + offset {
                bit as nat
            } else {
                packed_bit(old(packed)@, other)
            },
{
    let bit_position: u8 = 7 - offset;
    let byte: u8 = packed[byte_index];
    let ghost earlier = packed@;
    packed.set(byte_index, byte | (bit << bit_position));
    proof {
        assert forall|other: int| 0 <= other < packed@.len() * 8 implies #[trigger] packed_bit(
            packed@,
            other,
        ) == if other == byte_index * 8 + offset {
            bit as nat
        } else {
            packed_bit(earlier, other)
        } by {
            if other / 8 == byte_index {
                set_byte_bit(byte, bit, bit_position, (7 - other % 8) as u8);
            }
        }
    }
}

/// Writes a bucket, least significant bit first, into bits of one byte that
/// are still zero.
fn write_bucket(packed: &mut Vec<u8>, byte_index: usize, offset: u8, nbits: u8, bucket: usize)
    requires
        nbits <= 4,
        byte_index < old(packed)@.len(),
        offset + nbits <= 8,
        forall|position: int|
            byte_index * 8 + offset <= position < old(packed)@.len() * 8 ==> #[trigger] packed_bit(
                old(packed)@,
                position,
            ) == 0,
    ensures
        final(packed)@.len() == old(packed)@.len(),
        forall|position: int|
            0 <= position < final(packed)@.len() * 8 ==> #[trigger] packed_bit(
                final(packed)@,
                position,
            ) == if position < byte_index * 8 + offset {
                packed_bit(old(packed)@, position)
            } else if position < byte_index * 8 + offset + nbits {
                bucket_bit(bucket as nat, position - (byte_index * 8 + offset))
            } else {
                0
            },
{
    let ghost earlier = packed@;
    let mut bit: u8 = 0;
    while bit < nbits
        invariant
            nbits <= 4,
            bit <= nbits,
            packed@.len() == earlier.len(),
            byte_index < packed@.len(),
            offset + nbits <= 8,
            forall|position: int|
                0 <= position < packed@.len() * 8 ==> #[trigger] packed_bit(packed@, position)
                    == if position < byte_index * 8 + offset {
                    packed_bit(earlier, position)
                } else if position < byte_index * 8 + offset + bit {
                    bucket_bit(bucket as nat, position - (byte_index * 8 + offset))
                } else {
                    0
                },
        decreases nbits - bit,
    {
        write_bit(packed, byte_index, offset + bit, to_bucket_bit(bucket, bit));
        bit += 1;
    }
}

/// Why a residual matrix cannot be quantized.
pub open spec fn quantize_fault(book: Codebook, residuals: Grid) -> Option<Fault> {
    if !residuals.finite() {
        Some(Fault::InvalidInput("residual values must be finite"@))
    } else {
        book.packing_fault(residuals.columns)
    }
}

/// Why a packed residual cannot be decoded against a centroid.
pub open spec fn reconstruct_fault(
    book: Codebook,
    packed: Seq<u8>,
    dimension: nat,
    output_len: nat,
) -> Option<Fault> {
    if output_len != dimension {
        Some(
            Fault::InvalidInput(
                "output length "@ + decimal(output_len) + " does not match centroid dimension "@
                    + decimal(dimension),
            ),
        )
    } else if book.packing_fault(dimension) is Some {
        book.packing_fault(dimension)
    } else if packed.len() != book.packed_len(dimension) {
        Some(
            Fault::InvalidInput(
                "packed residual length must be "@ + decimal(book.packed_len(dimension)) + ", got "@
                    + decimal(packed.len()),
            ),
        )
    } else {
        None
    }
}

/// Scalar residual quantizer used after coarse centroid assignment.
#[derive(Debug)]
pub struct ResidualQuantizer {
    nbits: u8,
    bucket_cutoffs: Vec<u32>,
    bucket_weights: Vec<u32>,
}

impl View for ResidualQuantizer {
    type V = Codebook;

    closed spec fn view(&self) -> Codebook {
        Codebook {
            nbits: self.nbits,
            cutoffs: self.bucket_cutoffs@,
            weights: self.bucket_weights@,
        }
    }
}

impl Clone for ResidualQuantizer {
    fn clone(&self) -> (result: ResidualQuantizer)
        ensures
            result@ == self@,
    {
        proof {
            use_type_invariant(self);
        }
        let bucket_cutoffs = self.bucket_cutoffs.clone();
        let bucket_weights = self.bucket_weights.clone();
        assert(bucket_cutoffs@ =~= self.bucket_cutoffs@);
        assert(bucket_weights@ =~= self.bucket_weights@);
        ResidualQuantizer { nbits: self.nbits, bucket_cutoffs, bucket_weights }
    }
}

fn is_numerically_ascending(values: &Vec<u32>) -> (result: bool)
    requires
        all_finite(values@),
    ensures
        result == numerically_ascending(values@),
{
    let mut i: usize = 1;
    while i < values.len()
        invariant
            1 <= i,
            all_finite(values@),
            i <= values@.len() || values@.len() == 0,
            forall|a: int, b: int|
                0 <= a <= b < i && b < values@.len() ==> scalar::number(#[trigger] values@[a])
                    <= scalar::number(#[trigger] values@[b]),
        decreases values@.len() - i,
    {
        assert(scalar::finite(values@[i - 1]) && scalar::finite(values@[i as int]));
        if !scalar::is_at_least(values[i], values[i - 1]) {
            return false;
        }
        i += 1;
    }
    true
}

impl ResidualQuantizer {
    #[verifier::type_invariant]
    pub open spec fn wf(self) -> bool {
        self@.wf()
    }

    /// Creates a residual quantizer.
    ///
    /// `nbits` must be 2 or 4. The cutoff count must be `2^nbits - 1` and
    /// the reconstruction-weight count must be `2^nbits`.
    pub fn try_new(nbits: u8, bucket_cutoffs: Vec<u32>, bucket_weights: Vec<u32>) -> (result: Result<
        ResidualQuantizer,
    >)
        ensures
            ({
                let book = Codebook {
                    nbits,
                    cutoffs: bucket_cutoffs@,
                    weights: bucket_weights@,
                };
                match result {
                    Ok(quantizer) => codebook_fault(book) is None && quantizer@ == book,
                    Err(error) => codebook_fault(book) == Some(error@),
                }
            }),
    {
        if nbits != 2 && nbits != 4 {
            return Err(Error::InvalidInput(text_number("nbits must be 2 or 4, got ", nbits as u64)));
        }
        let num_buckets: usize = if nbits == 2 {
            4
        } else {
            16
        };
        if bucket_cutoffs.len() != num_buckets - 1 {
            return Err(
                Error::InvalidInput(
                    text_two_numbers(
                        "bucket_cutoffs length must be ",
                        (num_buckets - 1) as u64,
                        ", got ",
                        bucket_cutoffs.len() as u64,
                    ),
                ),
            );
        }
        if bucket_weights.len() != num_buckets {
            return Err(
                Error::InvalidInput(
                    text_two_numbers(
                        "bucket_weights length must be ",
                        num_buckets as u64,
                        ", got ",
                        bucket_weights.len() as u64,
                    ),
                ),
            );
        }
        if !scalar::all_finite(bucket_cutoffs.as_slice()) || !scalar::all_finite(
            bucket_weights.as_slice(),
        ) {
            return Err(Error::invalid("bucket cutoffs and weights must be finite"));
        }
        if !is_numerically_ascending(&bucket_cutoffs) {
            return Err(Error::invalid("bucket_cutoffs must be sorted in ascending order"));
        }
        Ok(ResidualQuantizer { nbits, bucket_cutoffs, bucket_weights })
    }

    /// Number of bits used for each residual dimension.
    pub fn nbits(&self) -> (result: u8)
        ensures
            result == self@.nbits,
    {
        self.nbits
    }

    /// Ordered residual bucket boundaries.
    pub fn bucket_cutoffs(&self) -> (result: &[u32])
        ensures
            result@ == self@.cutoffs,
    {
        self.bucket_cutoffs.as_slice()
    }

    /// Representative reconstruction value for each residual bucket.
    pub fn bucket_weights(&self) -> (result: &[u32])
        ensures
            result@ == self@.weights,
    {
        self.bucket_weights.as_slice()
    }

    /// Number of packed bytes required for one residual vector.
    pub fn packed_len(&self, dimension: usize) -> (result: Result<usize>)
        ensures
            match result {
                Ok(length) => self@.packing_fault(dimension as nat) is None && length
                    == self@.packed_len(dimension as nat),
                Err(error) => self@.packing_fault(dimension as nat) == Some(error@),
            },
    {
        let bit_count: usize = match dimension.checked_mul(self.nbits as usize) {
            Some(count) => count,
            None => {
                return Err(Error::invalid("residual bit count overflowed usize"));
            },
        };
        if bit_count % 8 != 0 {
            return Err(
                Error::InvalidInput(
                    text_two_numbers(
                        "dimension * nbits must be divisible by 8, got dimension=",
                        dimension as u64,
                        ", nbits=",
                        self.nbits as u64,
                    ),
                ),
            );
        }
        Ok(bit_count / 8)
    }

    /// The bucket of one residual value.
    fn bucket_of(&self, value: u32) -> (result: usize)
        ensures
            result == self@.bucket(value),
            result < bucket_count(self@.nbits),
    {
        proof {
            use_type_invariant(self);
            bucket_separates_cutoffs(self@.cutoffs, value);
        }
        let mut bucket: usize = 0;
        while bucket < self.bucket_cutoffs.len() && scalar::is_greater(
            value,
            self.bucket_cutoffs[bucket],
        )
            invariant
                self@.wf(),
                bucket <= self@.cutoffs.len(),
                bucket <= self@.bucket(value),
                self@.bucket(value) <= self@.cutoffs.len(),
                forall|i: int|
                    0 <= i < self@.cutoffs.len() ==> (scalar::greater(
                        value,
                        #[trigger] self@.cutoffs[i],
                    ) <==> i < self@.bucket(value)),
            decreases self@.cutoffs.len() - bucket,
        {
            assert(scalar::greater(value, self@.cutoffs[bucket as int]));
            bucket += 1;
        }
        proof {
            if bucket < self@.cutoffs.len() {
                assert(!scalar::greater(value, self@.cutoffs[bucket as int]));
            }
        }
        bucket
    }

    /// Quantizes and packs a row-major residual matrix.
    ///
    /// Each bucket is emitted least-significant bit first, while successive
    /// bits occupy each byte from MSB to LSB.
    pub fn quantize(&self, residuals: &Matrix) -> (result: Result<Vec<u8>>)
        ensures
            match result {
                Ok(packed) => quantize_fault(self@, residuals@) is None && self@.packs(
                    residuals@.values,
                    packed@,
                ),
                Err(error) => quantize_fault(self@, residuals@) == Some(error@),
            },
    {
        proof {
            use_type_invariant(self);
            use_type_invariant(residuals);
        }
        if !scalar::all_finite(residuals.values().as_slice()) {
            return Err(Error::invalid("residual values must be finite"));
        }
        let packed_len: usize = self.packed_len(residuals.columns())?;
        let rows: usize = residuals.rows();
        let values = residuals.values();
        assert(values@.len() == values.len());
        let ghost columns = residuals@.columns;
        assert(rows * packed_len <= rows * columns && (rows * packed_len) * 8 == (rows * columns)
            * self@.nbits) by (nonlinear_arith)
            requires
                packed_len * 8 == columns * self@.nbits,
                0 <= self@.nbits <= 4,
                0 <= rows,
                0 <= packed_len,
        ;
        let mut packed: Vec<u8> = vec![0u8; rows * packed_len];
        proof {
            assert forall|position: int| 0 <= position < packed@.len() * 8 implies #[trigger] packed_bit(
                packed@,
                position,
            ) == 0 by {
                byte_bit_is_bit(0, (7 - position % 8) as u8);
            }
        }
        let mut index: usize = 0;
        while index < values.len()
            invariant
                self@.wf(),
                values@ == residuals@.values,
                index <= values@.len(),
                values@.len() <= usize::MAX,
                packed@.len() * 8 == values@.len() * self@.nbits,
                packed@.len() <= values@.len(),
                forall|position: int|
                    index * self@.nbits <= position < packed@.len() * 8 ==> #[trigger] packed_bit(
                        packed@,
                        position,
                    ) == 0,
                forall|earlier: int, bit: int|
                    #![trigger bucket_bit(self@.bucket(values@[earlier]), bit), packed_bit(packed@, earlier * self@.nbits + bit)]
                    0 <= earlier < index && 0 <= bit < self@.nbits ==> packed_bit(
                        packed@,
                        earlier * self@.nbits + bit,
                    ) == bucket_bit(self@.bucket(values@[earlier]), bit),
            decreases values@.len() - index,
        {
            let bucket: usize = self.bucket_of(values[index]);
            assert(index * self@.nbits + self@.nbits <= packed@.len() * 8) by (nonlinear_arith)
                requires
                    packed@.len() * 8 == values@.len() * self@.nbits,
                    index + 1 <= values@.len(),
            ;
            assert((index + 1) * self@.nbits == index * self@.nbits + self@.nbits)
                by (nonlinear_arith);
            let ghost before = packed@;
            self.write_at(&mut packed, index, bucket);
            proof {
                assert forall|earlier: int, bit: int|
                    #![trigger bucket_bit(self@.bucket(values@[earlier]), bit), packed_bit(packed@, earlier * self@.nbits + bit)]
                    0 <= earlier < index + 1 && 0 <= bit < self@.nbits implies packed_bit(
                    packed@,
                    earlier * self@.nbits + bit,
                ) == bucket_bit(self@.bucket(values@[earlier]), bit) by {
                    if earlier < index {
                        assert(0 <= earlier * self@.nbits && earlier * self@.nbits + self@.nbits
                            <= index * self@.nbits) by (nonlinear_arith)
                            requires
                                0 <= earlier,
                                earlier + 1 <= index,
                        ;
                        assert(packed_bit(before, earlier * self@.nbits + bit) == bucket_bit(
                            self@.bucket(values@[earlier]),
                            bit,
                        ));
                    }
                }
            }
            index += 1;
        }
        Ok(packed)
    }

    /// The byte and the offset in it at which the bucket of an index starts.
    fn bucket_place(&self, index: usize) -> (result: (usize, u8))
        ensures
            result.0 * 8 + result.1 == index * self@.nbits,
            result.1 + self@.nbits <= 8,
            result.0 <= index,
    {
        proof {
            use_type_invariant(self);
        }
        if self.nbits == 2 {
            (index / 4, (index % 4) as u8 * 2)
        } else {
            (index / 2, (index % 2) as u8 * 4)
        }
    }

    /// Writes the bucket of one value into bits that are still zero.
    fn write_at(&self, packed: &mut Vec<u8>, index: usize, bucket: usize)
        requires
            index * self@.nbits + self@.nbits <= old(packed)@.len() * 8,
            forall|position: int|
                index * self@.nbits <= position < old(packed)@.len() * 8 ==> #[trigger] packed_bit(
                    old(packed)@,
                    position,
                ) == 0,
        ensures
            final(packed)@.len() == old(packed)@.len(),
            forall|position: int|
                0 <= position < final(packed)@.len() * 8 ==> #[trigger] packed_bit(
                    final(packed)@,
                    position,
                ) == if position < index * self@.nbits {
                    packed_bit(old(packed)@, position)
                } else if position < index * self@.nbits + self@.nbits {
                    bucket_bit(bucket as nat, position - index * self@.nbits)
                } else {
                    0
                },
    {
        proof {
            use_type_invariant(self);
        }
        let (byte_index, offset) = self.bucket_place(index);
        write_bucket(packed, byte_index, offset, self.nbits, bucket);
    }

    /// The bucket that packed bytes hold for one dimension.
    fn decode_bucket(&self, packed: &[u8], dimension: usize) -> (result: usize)
        requires
            dimension * self@.nbits + self@.nbits <= packed@.len() * 8,
        ensures
            result == self@.unpacked(packed@, dimension as int),
            result < bucket_count(self@.nbits),
    {
        proof {
            use_type_invariant(self);
        }
        let (byte_index, offset) = self.bucket_place(dimension);
        let mut bucket: usize = 0;
        let mut left: u8 = self.nbits;
        while left > 0
            invariant
                self@.wf(),
                left <= self@.nbits,
                self.nbits == self@.nbits,
                byte_index < packed@.len(),
                byte_index * 8 + offset == dimension * self@.nbits,
                offset + self@.nbits <= 8,
                bucket == bits_value(
                    packed@,
                    dimension * self@.nbits + left,
                    (self@.nbits - left) as nat,
                ),
                self@.nbits - left == 0 ==> bucket < 1,
                self@.nbits - left == 1 ==> bucket < 2,
                self@.nbits - left == 2 ==> bucket < 4,
                self@.nbits - left == 3 ==> bucket < 8,
                self@.nbits - left == 4 ==> bucket < 16,
            decreases left,
        {
            left = left - 1;
            let position: u8 = 7 - (offset + left);
            let bit: u8 = (packed[byte_index] >> position) & 1;
            proof {
                byte_bit_is_bit(packed@[byte_index as int], position);
                assert(packed_bit(packed@, dimension * self@.nbits + left) == bit);
            }
            bucket = bucket * 2 + bit as usize;
        }
        bucket
    }

    /// The reconstruction weights of a packed residual, one for each dimension
    /// of the centroid that they are added to.
    pub fn reconstruct_token(&self, packed: &[u8], dimension: usize, output_len: usize) -> (result:
        Result<Vec<u32>>)
        ensures
            match result {
                Ok(weights) => reconstruct_fault(
                    self@,
                    packed@,
                    dimension as nat,
                    output_len as nat,
                ) is None && weights@ == Seq::new(
                    dimension as nat,
                    |d: int| self@.weights[self@.unpacked(packed@, d) as int],
                ),
                Err(error) => reconstruct_fault(
                    self@,
                    packed@,
                    dimension as nat,
                    output_len as nat,
                ) == Some(error@),
            },
    {
        proof {
            use_type_invariant(self);
        }
        if output_len != dimension {
            return Err(
                Error::InvalidInput(
                    text_two_numbers(
                        "output length ",
                        output_len as u64,
                        " does not match centroid dimension ",
                        dimension as u64,
                    ),
                ),
            );
        }
        let expected_len: usize = self.packed_len(dimension)?;
        if packed.len() != expected_len {
            return Err(
                Error::InvalidInput(
                    text_two_numbers(
                        "packed residual length must be ",
                        expected_len as u64,
                        ", got ",
                        packed.len() as u64,
                    ),
                ),
            );
        }
        let mut weights: Vec<u32> = Vec::new();
        let mut index: usize = 0;
        while index < dimension
            invariant
                self@.wf(),
                index <= dimension,
                packed@.len() * 8 == dimension * self@.nbits,
                weights@ == Seq::new(
                    index as nat,
                    |d: int| self@.weights[self@.unpacked(packed@, d) as int],
                ),
            decreases dimension - index,
        {
            assert(index * self@.nbits + self@.nbits <= packed@.len() * 8) by (nonlinear_arith)
                requires
                    packed@.len() * 8 == dimension * self@.nbits,
                    index + 1 <= dimension,
            ;
            let bucket: usize = self.decode_bucket(packed, index);
            weights.push(self.bucket_weights[bucket]);
            index += 1;
        }
        Ok(weights)
    }
}

/// A byte is the sum of its bits.
proof fn byte_is_sum_of_bits(byte: u8)
    ensures
        byte as int == 128 * byte_bit(byte, 7) + 64 * byte_bit(byte, 6) + 32 * byte_bit(byte, 5)
            + 16 * byte_bit(byte, 4) + 8 * byte_bit(byte, 3) + 4 * byte_bit(byte, 2) + 2 * byte_bit(
            byte,
            1,
        ) + byte_bit(byte, 0),
{
    assert(byte as int == 128 * ((byte >> 7) & 1) + 64 * ((byte >> 6) & 1) + 32 * ((byte >> 5) & 1)
        + 16 * ((byte >> 4) & 1) + 8 * ((byte >> 3) & 1) + 4 * ((byte >> 2) & 1) + 2 * ((byte >> 1)
        & 1) + ((byte >> 0) & 1)) by (bit_vector);
}

/// The bucket of a value is the number of cutoffs below it: it lies above exactly
/// the first so many cutoffs.
pub proof fn buckets_count_cutoffs_below(book: Codebook, value: u32)
    requires
        book.wf(),
    ensures
        book.bucket(value) < book.weights.len(),
        book.weights.len() == if book.nbits == 2 {
            4int
        } else {
            16int
        },
        book.nbits == 2 || book.nbits == 4,
        book.cutoffs.len() == book.weights.len() - 1,
        forall|i: int|
            0 <= i < book.cutoffs.len() ==> (scalar::greater(value, #[trigger] book.cutoffs[i])
                <==> i < book.bucket(value)),
{
    bucket_separates_cutoffs(book.cutoffs, value);
}

/// Two bits for each value: a byte holds four buckets, the first in its top bits,
/// and each with its low bit first.
pub proof fn bytes_hold_four_narrow_buckets(
    book: Codebook,
    values: Seq<u32>,
    packed: Seq<u8>,
    place: int,
)
    requires
        book.nbits == 2,
        book.packs(values, packed),
        0 <= place < packed.len(),
    ensures
        values.len() == 4 * packed.len(),
        ({
            let a = book.bucket(values[4 * place]);
            let b = book.bucket(values[4 * place + 1]);
            let c = book.bucket(values[4 * place + 2]);
            let d = book.bucket(values[4 * place + 3]);
            packed[place] == 128 * (a % 2) + 64 * (a / 2 % 2) + 32 * (b % 2) + 16 * (b / 2 % 2) + 8
                * (c % 2) + 4 * (c / 2 % 2) + 2 * (d % 2) + d / 2 % 2
        }),
{
    let byte = packed[place];
    byte_is_sum_of_bits(byte);
    assert forall|index: int, bit: int|
        4 * place <= index < 4 * place + 4 && 0 <= bit < 2 implies #[trigger] bucket_bit(
        book.bucket(values[index]),
        bit,
    ) == byte_bit(byte, (7 - (2 * (index - 4 * place) + bit)) as u8) by {
        let position = index * book.nbits + bit;
        assert(packed_bit(packed, index * book.nbits + bit) == bucket_bit(
            book.bucket(values[index]),
            bit,
        ));
        assert(position == 8 * place + (2 * (index - 4 * place) + bit));
        assert(position / 8 == place);
    }
    assert(bucket_bit(book.bucket(values[4 * place]), 0) == byte_bit(byte, 7));
    assert(bucket_bit(book.bucket(values[4 * place]), 1) == byte_bit(byte, 6));
    assert(bucket_bit(book.bucket(values[4 * place + 1]), 0) == byte_bit(byte, 5));
    assert(bucket_bit(book.bucket(values[4 * place + 1]), 1) == byte_bit(byte, 4));
    assert(bucket_bit(book.bucket(values[4 * place + 2]), 0) == byte_bit(byte, 3));
    assert(bucket_bit(book.bucket(values[4 * place + 2]), 1) == byte_bit(byte, 2));
    assert(bucket_bit(book.bucket(values[4 * place + 3]), 0) == byte_bit(byte, 1));
    assert(bucket_bit(book.bucket(values[4 * place + 3]), 1) == byte_bit(byte, 0));
}

/// Four bits for each value: a byte holds two buckets, the first in its top bits,
/// and each with its low bit first.
pub proof fn bytes_hold_two_wide_buckets(
    book: Codebook,
    values: Seq<u32>,
    packed: Seq<u8>,
    place: int,
)
    requires
        book.nbits == 4,
        book.packs(values, packed),
        0 <= place < packed.len(),
    ensures
        values.len() == 2 * packed.len(),
        ({
            let a = book.bucket(values[2 * place]);
            let b = book.bucket(values[2 * place + 1]);
            packed[place] == 128 * (a % 2) + 64 * (a / 2 % 2) + 32 * (a / 4 % 2) + 16 * (a / 8 % 2)
                + 8 * (b % 2) + 4 * (b / 2 % 2) + 2 * (b / 4 % 2) + b / 8 % 2
        }),
{
    let byte = packed[place];
    byte_is_sum_of_bits(byte);
    assert forall|index: int, bit: int|
        2 * place <= index < 2 * place + 2 && 0 <= bit < 4 implies #[trigger] bucket_bit(
        book.bucket(values[index]),
        bit,
    ) == byte_bit(byte, (7 - (4 * (index - 2 * place) + bit)) as u8) by {
        let position = index * book.nbits + bit;
        assert(packed_bit(packed, index * book.nbits + bit) == bucket_bit(
            book.bucket(values[index]),
            bit,
        ));
        assert(position == 8 * place + (4 * (index - 2 * place) + bit));
        assert(position / 8 == place);
    }
    assert(bucket_bit(book.bucket(values[2 * place]), 0) == byte_bit(byte, 7));
    assert(bucket_bit(book.bucket(values[2 * place]), 1) == byte_bit(byte, 6));
    assert(bucket_bit(book.bucket(values[2 * place]), 2) == byte_bit(byte, 5));
    assert(bucket_bit(book.bucket(values[2 * place]), 3) == byte_bit(byte, 4));
    assert(bucket_bit(book.bucket(values[2 * place + 1]), 0) == byte_bit(byte, 3));
    assert(bucket_bit(book.bucket(values[2 * place + 1]), 1) == byte_bit(byte, 2));
    assert(bucket_bit(book.bucket(values[2 * place + 1]), 2) == byte_bit(byte, 1));
    assert(bucket_bit(book.bucket(values[2 * place + 1]), 3) == byte_bit(byte, 0));
}

/// Bits that are cut out of a longer sequence of bytes keep their value.
pub(crate) proof fn cut_bits_keep_their_value(
    packed: Seq<u8>,
    from: int,
    to: int,
    start: int,
    count: nat,
)
    requires
        0 <= from <= to <= packed.len(),
        0 <= start,
        start + count <= 8 * (to - from),
    ensures
        bits_value(packed.subrange(from, to), start, count) == bits_value(
            packed,
            8 * from + start,
            count,
        ),
    decreases count,
{
    if count > 0 {
        cut_bits_keep_their_value(packed, from, to, start + 1, (count - 1) as nat);
        let part = packed.subrange(from, to);
        assert((8 * from + start) / 8 == from + start / 8);
        assert((8 * from + start) % 8 == start % 8);
        assert(part[start / 8] == packed[from + start / 8]);
        assert(packed_bit(part, start) == packed_bit(packed, 8 * from + start));
    }
}

/// A codebook is accepted exactly where it takes two bits and has four weights, or
/// four bits and sixteen, one cutoff less than weights, and all numbers are finite
/// and the cutoffs in order.
pub proof fn accepted_codebooks_are_complete(book: Codebook)
    ensures
        codebook_fault(book) is None <==> {
            &&& book.nbits == 2 && book.weights.len() == 4 || book.nbits == 4 && book.weights.len()
                == 16
            &&& book.cutoffs.len() == book.weights.len() - 1
            &&& forall|i: int| 0 <= i < book.cutoffs.len() ==> scalar::finite(
                #[trigger] book.cutoffs[i],
            )
            &&& forall|i: int| 0 <= i < book.weights.len() ==> scalar::finite(
                #[trigger] book.weights[i],
            )
            &&& forall|i: int, j: int|
                0 <= i <= j < book.cutoffs.len() ==> scalar::encoded_number(
                    #[trigger] book.cutoffs[i],
                ) <= scalar::encoded_number(#[trigger] book.cutoffs[j])
        },
{
    if all_finite(book.cutoffs) {
        assert forall|i: int, j: int|
            0 <= i < book.cutoffs.len() && 0 <= j < book.cutoffs.len() implies (scalar::number(
            #[trigger] book.cutoffs[i],
        ) <= scalar::number(#[trigger] book.cutoffs[j]) <==> scalar::encoded_number(book.cutoffs[i])
            <= scalar::encoded_number(book.cutoffs[j])) by {
            scalar::finite_patterns_compare_as_numbers(book.cutoffs[j], book.cutoffs[i]);
        }
    }
}

/// A vector is packed exactly where its bits are countable and fill whole bytes. A
/// token is reconstructed exactly where it has those bytes and its place has its
/// dimension.
pub proof fn packed_vectors_fill_whole_bytes(
    book: Codebook,
    packed: Seq<u8>,
    dimension: nat,
    output_len: nat,
)
    ensures
        book.packing_fault(dimension) is None <==> dimension * book.nbits <= usize::MAX && (
        dimension * book.nbits) % 8 == 0,
        book.packing_fault(dimension) is None ==> 8 * book.packed_len(dimension) == dimension
            * book.nbits,
        reconstruct_fault(book, packed, dimension, output_len) is None <==> {
            &&& output_len == dimension
            &&& dimension * book.nbits <= usize::MAX
            &&& 8 * packed.len() == dimension * book.nbits
        },
{
}

/// Residuals are quantized exactly where all are finite and their bits fill whole
/// bytes.
pub proof fn quantized_residuals_are_finite(book: Codebook, residuals: Grid)
    ensures
        quantize_fault(book, residuals) is None <==> {
            &&& forall|i: int|
                0 <= i < residuals.values.len() ==> scalar::finite(#[trigger] residuals.values[i])
            &&& residuals.columns * book.nbits <= usize::MAX
            &&& (residuals.columns * book.nbits) % 8 == 0
        },
{
}

} // verus!
