//! Little-endian numbers in byte sequences.

use byteorder::{LittleEndian, ReadBytesExt, WriteBytesExt};
use vstd::prelude::*;

verus! {

/// The lowest `width` bytes of a number, least significant first.
pub open spec fn le_bytes(value: nat, width: nat) -> Seq<u8>
    decreases width,
{
    if width == 0 {
        Seq::empty()
    } else {
        seq![(value % 256) as u8] + le_bytes(value / 256, (width - 1) as nat)
    }
}

/// The number that bytes encode, least significant first.
pub open spec fn le_value(bytes: Seq<u8>) -> nat
    decreases bytes.len(),
{
    if bytes.len() == 0 {
        0
    } else {
        bytes[0] as nat + 256 * le_value(bytes.drop_first())
    }
}

/// One more than the largest number that fits a number of bytes.
pub open spec fn le_limit(width: nat) -> nat
    decreases width,
{
    if width == 0 {
        1
    } else {
        256 * le_limit((width - 1) as nat)
    }
}

/// Decoding the bytes of a number gives the number back.
pub proof fn le_value_of_bytes(value: nat, width: nat)
    requires
        value < le_limit(width),
    ensures
        le_bytes(value, width).len() == width,
        le_value(le_bytes(value, width)) == value,
    decreases width,
{
    if width > 0 {
        le_value_of_bytes(value / 256, (width - 1) as nat);
        assert(le_bytes(value, width).drop_first() =~= le_bytes(value / 256, (width - 1) as nat));
    }
}

/// Encoding the number that bytes stand for gives the bytes back.
pub proof fn le_bytes_of_value(bytes: Seq<u8>)
    ensures
        le_value(bytes) < le_limit(bytes.len()),
        le_bytes(le_value(bytes), bytes.len()) == bytes,
    decreases bytes.len(),
{
    if bytes.len() > 0 {
        le_bytes_of_value(bytes.drop_first());
        assert((bytes[0] as nat + 256 * le_value(bytes.drop_first())) / 256 == le_value(
            bytes.drop_first(),
        ));
        assert(le_bytes(le_value(bytes), bytes.len()) =~= bytes);
    } else {
        assert(le_bytes(le_value(bytes), bytes.len()) =~= bytes);
    }
}

/// A number written in a width takes that many bytes.
pub proof fn le_bytes_len(value: nat, width: nat)
    ensures
        le_bytes(value, width).len() == width,
    decreases width,
{
    if width > 0 {
        le_bytes_len(value / 256, (width - 1) as nat);
    }
}

/// What two, four and eight bytes can hold.
pub proof fn le_limits()
    ensures
        le_limit(2) == 0x1_0000,
        le_limit(4) == 0x1_0000_0000,
        le_limit(8) == 0x1_0000_0000_0000_0000,
{
    reveal_with_fuel(le_limit, 9);
}

/// The bytes of consecutive 32-bit words.
pub open spec fn words(values: Seq<u32>) -> Seq<u8>
    decreases values.len(),
{
    if values.len() == 0 {
        Seq::empty()
    } else {
        words(values.drop_last()) + le_bytes(values.last() as nat, 4)
    }
}

/// The bytes of consecutive 64-bit words.
pub open spec fn long_words(values: Seq<u64>) -> Seq<u8>
    decreases values.len(),
{
    if values.len() == 0 {
        Seq::empty()
    } else {
        long_words(values.drop_last()) + le_bytes(values.last() as nat, 8)
    }
}

/// The 32-bit word at a position.
pub open spec fn word_at(bytes: Seq<u8>, position: int) -> u32 {
    le_value(bytes.subrange(position, position + 4)) as u32
}

/// The 64-bit word at a position.
pub open spec fn long_word_at(bytes: Seq<u8>, position: int) -> u64 {
    le_value(bytes.subrange(position, position + 8)) as u64
}

/// Consecutive 32-bit words from a position on.
pub open spec fn words_at(bytes: Seq<u8>, position: int, count: nat) -> Seq<u32> {
    Seq::new(count, |i: int| word_at(bytes, position + 4 * i))
}

/// Consecutive 64-bit words from a position on.
pub open spec fn long_words_at(bytes: Seq<u8>, position: int, count: nat) -> Seq<u64> {
    Seq::new(count, |i: int| long_word_at(bytes, position + 8 * i))
}

/// 32-bit words can be read back from where they were written.
pub proof fn words_read_back(bytes: Seq<u8>, position: int, values: Seq<u32>)
    requires
        0 <= position,
        position + words(values).len() <= bytes.len(),
        bytes.subrange(position, position + words(values).len()) == words(values),
    ensures
        words(values).len() == 4 * values.len(),
        words_at(bytes, position, values.len()) == values,
    decreases values.len(),
{
    if values.len() > 0 {
        let shorter = values.drop_last();
        let last = values.last();
        let whole = bytes.subrange(position, position + words(values).len());
        le_limits();
        le_value_of_bytes(last as nat, 4);
        assert(words(values) == words(shorter) + le_bytes(last as nat, 4));
        assert(bytes.subrange(position, position + words(shorter).len()) =~= words(shorter)) by {
            assert forall|i: int| 0 <= i < words(shorter).len() implies bytes[position + i]
                == #[trigger] words(shorter)[i] by {
                assert(whole[i] == words(values)[i]);
            }
        }
        words_read_back(bytes, position, shorter);
        let at = position + 4 * (values.len() - 1);
        assert(bytes.subrange(at, at + 4) =~= le_bytes(last as nat, 4)) by {
            assert forall|i: int| 0 <= i < 4 implies bytes[at + i] == #[trigger] le_bytes(
                last as nat,
                4,
            )[i] by {
                assert(whole[words(shorter).len() + i] == words(values)[words(shorter).len() + i]);
            }
        }
        assert(words_at(bytes, position, values.len()) =~= values) by {
            assert forall|i: int| 0 <= i < values.len() implies word_at(bytes, position + 4 * i)
                == #[trigger] values[i] by {
                if i < values.len() - 1 {
                    assert(words_at(bytes, position, shorter.len())[i] == shorter[i]);
                }
            }
        }
    } else {
        assert(words_at(bytes, position, values.len()) =~= values);
    }
}

/// 64-bit words can be read back from where they were written.
pub proof fn long_words_read_back(bytes: Seq<u8>, position: int, values: Seq<u64>)
    requires
        0 <= position,
        position + long_words(values).len() <= bytes.len(),
        bytes.subrange(position, position + long_words(values).len()) == long_words(values),
    ensures
        long_words(values).len() == 8 * values.len(),
        long_words_at(bytes, position, values.len()) == values,
    decreases values.len(),
{
    if values.len() > 0 {
        let shorter = values.drop_last();
        let last = values.last();
        let whole = bytes.subrange(position, position + long_words(values).len());
        le_limits();
        le_value_of_bytes(last as nat, 8);
        assert(long_words(values) == long_words(shorter) + le_bytes(last as nat, 8));
        assert(bytes.subrange(position, position + long_words(shorter).len()) =~= long_words(
            shorter,
        )) by {
            assert forall|i: int| 0 <= i < long_words(shorter).len() implies bytes[position + i]
                == #[trigger] long_words(shorter)[i] by {
                assert(whole[i] == long_words(values)[i]);
            }
        }
        long_words_read_back(bytes, position, shorter);
        let at = position + 8 * (values.len() - 1);
        assert(bytes.subrange(at, at + 8) =~= le_bytes(last as nat, 8)) by {
            assert forall|i: int| 0 <= i < 8 implies bytes[at + i] == #[trigger] le_bytes(
                last as nat,
                8,
            )[i] by {
                assert(whole[long_words(shorter).len() + i] == long_words(values)[long_words(
                    shorter,
                ).len() + i]);
            }
        }
        assert(long_words_at(bytes, position, values.len()) =~= values) by {
            assert forall|i: int| 0 <= i < values.len() implies long_word_at(
                bytes,
                position + 8 * i,
            ) == #[trigger] values[i] by {
                if i < values.len() - 1 {
                    assert(long_words_at(bytes, position, shorter.len())[i] == shorter[i]);
                }
            }
        }
    } else {
        assert(long_words_at(bytes, position, values.len()) =~= values);
    }
}

/// Writing the 32-bit words read at a position gives the bytes there.
pub proof fn words_write_back(bytes: Seq<u8>, position: int, count: nat)
    requires
        0 <= position,
        position + 4 * count <= bytes.len(),
    ensures
        words(words_at(bytes, position, count)) == bytes.subrange(position, position + 4 * count),
    decreases count,
{
    let values = words_at(bytes, position, count);
    if count > 0 {
        let fewer = (count - 1) as nat;
        let shorter = words_at(bytes, position, fewer);
        words_write_back(bytes, position, fewer);
        assert(values.drop_last() =~= shorter);
        let at = position + 4 * fewer;
        let own = bytes.subrange(at, at + 4);
        le_limits();
        le_bytes_of_value(own);
        assert(values.last() == le_value(own));
        assert(words(values) =~= bytes.subrange(position, position + 4 * count));
    } else {
        assert(words(values) =~= bytes.subrange(position, position + 4 * count));
    }
}

/// Writing the 64-bit words read at a position gives the bytes there.
pub proof fn long_words_write_back(bytes: Seq<u8>, position: int, count: nat)
    requires
        0 <= position,
        position + 8 * count <= bytes.len(),
    ensures
        long_words(long_words_at(bytes, position, count)) == bytes.subrange(
            position,
            position + 8 * count,
        ),
    decreases count,
{
    let values = long_words_at(bytes, position, count);
    if count > 0 {
        let fewer = (count - 1) as nat;
        let shorter = long_words_at(bytes, position, fewer);
        long_words_write_back(bytes, position, fewer);
        assert(values.drop_last() =~= shorter);
        let at = position + 8 * fewer;
        let own = bytes.subrange(at, at + 8);
        le_limits();
        le_bytes_of_value(own);
        assert(values.last() == le_value(own));
        assert(long_words(values) =~= bytes.subrange(position, position + 8 * count));
    } else {
        assert(long_words(values) =~= bytes.subrange(position, position + 8 * count));
    }
}

/// Each 32-bit word takes four bytes.
pub proof fn words_len(values: Seq<u32>)
    ensures
        words(values).len() == 4 * values.len(),
    decreases values.len(),
{
    if values.len() > 0 {
        words_len(values.drop_last());
        le_bytes_len(values.last() as nat, 4);
    }
}

/// Each 64-bit word takes eight bytes.
pub proof fn long_words_len(values: Seq<u64>)
    ensures
        long_words(values).len() == 8 * values.len(),
    decreases values.len(),
{
    if values.len() > 0 {
        long_words_len(values.drop_last());
        le_bytes_len(values.last() as nat, 8);
    }
}

/// `ReadBytesExt::read_u16` of byteorder, in little-endian order, decodes the
/// next two bytes of a reader, here those of a slice from a position on.
#[verifier::external_body]
pub(crate) fn read_u16(bytes: &[u8], position: usize) -> (result: u16)
    requires
        position + 2 <= bytes@.len(),
    ensures
        result as nat == le_value(bytes@.subrange(position as int, position + 2)),
{
    let mut reader: &[u8] = &bytes[position..];
    reader.read_u16::<LittleEndian>().unwrap()
}

/// `ReadBytesExt::read_u32` of byteorder, in little-endian order, decodes the
/// next four bytes of a reader, here those of a slice from a position on.
#[verifier::external_body]
pub(crate) fn read_u32(bytes: &[u8], position: usize) -> (result: u32)
    requires
        position + 4 <= bytes@.len(),
    ensures
        result as nat == le_value(bytes@.subrange(position as int, position + 4)),
{
    let mut reader: &[u8] = &bytes[position..];
    reader.read_u32::<LittleEndian>().unwrap()
}

/// `ReadBytesExt::read_u64` of byteorder, in little-endian order, decodes the
/// next eight bytes of a reader, here those of a slice from a position on.
#[verifier::external_body]
pub(crate) fn read_u64(bytes: &[u8], position: usize) -> (result: u64)
    requires
        position + 8 <= bytes@.len(),
    ensures
        result as nat == le_value(bytes@.subrange(position as int, position + 8)),
{
    let mut reader: &[u8] = &bytes[position..];
    reader.read_u64::<LittleEndian>().unwrap()
}

/// `WriteBytesExt::write_u16` of byteorder, in little-endian order, appends the
/// two bytes of a number to a writer, here a vector, which takes every write.
#[verifier::external_body]
pub(crate) fn write_u16(writer: &mut Vec<u8>, value: u16)
    ensures
        final(writer)@ == old(writer)@ + le_bytes(value as nat, 2),
{
    writer.write_u16::<LittleEndian>(value).unwrap()
}

/// `WriteBytesExt::write_u32` of byteorder, in little-endian order, appends the
/// four bytes of a number to a writer, here a vector, which takes every write.
#[verifier::external_body]
pub(crate) fn write_u32(writer: &mut Vec<u8>, value: u32)
    ensures
        final(writer)@ == old(writer)@ + le_bytes(value as nat, 4),
{
    writer.write_u32::<LittleEndian>(value).unwrap()
}

/// `WriteBytesExt::write_u64` of byteorder, in little-endian order, appends the
/// eight bytes of a number to a writer, here a vector, which takes every write.
#[verifier::external_body]
pub(crate) fn write_u64(writer: &mut Vec<u8>, value: u64)
    ensures
        final(writer)@ == old(writer)@ + le_bytes(value as nat, 8),
{
    writer.write_u64::<LittleEndian>(value).unwrap()
}

/// Appends 32-bit words.
pub fn write_u32s(writer: &mut Vec<u8>, values: &[u32])
    ensures
        final(writer)@ == old(writer)@ + words(values@),
{
    let ghost start = writer@;
    let mut i: usize = 0;
    assert(values@.take(0) =~= Seq::<u32>::empty());
    assert(writer@ =~= start + words(values@.take(0)));
    while i < values.len()
        invariant
            i <= values@.len(),
            writer@ == start + words(values@.take(i as int)),
        decreases values@.len() - i,
    {
        write_u32(writer, values[i]);
        assert(values@.take(i + 1).drop_last() =~= values@.take(i as int));
        assert(writer@ =~= start + words(values@.take(i + 1)));
        i += 1;
    }
    assert(values@.take(i as int) =~= values@);
}

/// Appends 64-bit words.
pub fn write_u64s(writer: &mut Vec<u8>, values: &[u64])
    ensures
        final(writer)@ == old(writer)@ + long_words(values@),
{
    let ghost start = writer@;
    let mut i: usize = 0;
    assert(values@.take(0) =~= Seq::<u64>::empty());
    assert(writer@ =~= start + long_words(values@.take(0)));
    while i < values.len()
        invariant
            i <= values@.len(),
            writer@ == start + long_words(values@.take(i as int)),
        decreases values@.len() - i,
    {
        write_u64(writer, values[i]);
        assert(values@.take(i + 1).drop_last() =~= values@.take(i as int));
        assert(writer@ =~= start + long_words(values@.take(i + 1)));
        i += 1;
    }
    assert(values@.take(i as int) =~= values@);
}

/// Reads consecutive 32-bit words.
pub fn read_u32s(bytes: &[u8], position: usize, count: usize) -> (result: Vec<u32>)
    requires
        position + 4 * count <= bytes@.len(),
    ensures
        result@ == words_at(bytes@, position as int, count as nat),
{
    let mut values: Vec<u32> = Vec::new();
    let mut i: usize = 0;
    while i < count
        invariant
            i <= count,
            position + 4 * count <= bytes@.len(),
            values@ == words_at(bytes@, position as int, i as nat),
        decreases count - i,
    {
        assert(bytes@.len() == bytes.len());
        let value: u32 = read_u32(bytes, position + 4 * i);
        values.push(value);
        i += 1;
        assert(values@ =~= words_at(bytes@, position as int, i as nat));
    }
    values
}

/// Reads consecutive 64-bit words.
pub fn read_u64s(bytes: &[u8], position: usize, count: usize) -> (result: Vec<u64>)
    requires
        position + 8 * count <= bytes@.len(),
    ensures
        result@ == long_words_at(bytes@, position as int, count as nat),
{
    let mut values: Vec<u64> = Vec::new();
    let mut i: usize = 0;
    while i < count
        invariant
            i <= count,
            position + 8 * count <= bytes@.len(),
            values@ == long_words_at(bytes@, position as int, i as nat),
        decreases count - i,
    {
        assert(bytes@.len() == bytes.len());
        let value: u64 = read_u64(bytes, position + 8 * i);
        values.push(value);
        i += 1;
        assert(values@ =~= long_words_at(bytes@, position as int, i as nat));
    }
    values
}

/// The number that four bytes from a position on write, the smallest first.
pub open spec fn short_number(bytes: Seq<u8>, position: int) -> int {
    bytes[position] + 0x100 * bytes[position + 1] + 0x1_0000 * bytes[position + 2] + 0x100_0000
        * bytes[position + 3]
}

/// The number that eight bytes from a position on write, the smallest first.
pub open spec fn long_number(bytes: Seq<u8>, position: int) -> int {
    short_number(bytes, position) + 0x1_0000_0000 * short_number(bytes, position + 4)
}

proof fn value_from_first_byte(bytes: Seq<u8>, position: int, width: nat)
    requires
        0 <= position,
        width > 0,
        position + width <= bytes.len(),
    ensures
        le_value(bytes.subrange(position, position + width)) == bytes[position] + 256 * le_value(
            bytes.subrange(position + 1, position + width),
        ),
        le_value(bytes.subrange(position, position)) == 0,
{
    assert(bytes.subrange(position, position + width).drop_first() =~= bytes.subrange(
        position + 1,
        position + width,
    ));
}

/// Later bytes of a number weigh more, each 256 times as much as the one before.
pub proof fn later_bytes_weigh_more(bytes: Seq<u8>, position: int)
    requires
        0 <= position,
    ensures
        position + 2 <= bytes.len() ==> le_value(bytes.subrange(position, position + 2))
            == bytes[position] + 0x100 * bytes[position + 1],
        position + 4 <= bytes.len() ==> le_value(bytes.subrange(position, position + 4))
            == short_number(bytes, position),
        position + 8 <= bytes.len() ==> le_value(bytes.subrange(position, position + 8))
            == long_number(bytes, position),
{
    if position + 2 <= bytes.len() {
        value_from_first_byte(bytes, position, 2);
        value_from_first_byte(bytes, position + 1, 1);
        assert(bytes.subrange(position + 2, position + 2).len() == 0);
    }
    if position + 4 <= bytes.len() {
        value_from_first_byte(bytes, position, 4);
        value_from_first_byte(bytes, position + 1, 3);
        value_from_first_byte(bytes, position + 2, 2);
        value_from_first_byte(bytes, position + 3, 1);
        assert(bytes.subrange(position + 4, position + 4).len() == 0);
    }
    if position + 8 <= bytes.len() {
        value_from_first_byte(bytes, position, 8);
        value_from_first_byte(bytes, position + 1, 7);
        value_from_first_byte(bytes, position + 2, 6);
        value_from_first_byte(bytes, position + 3, 5);
        value_from_first_byte(bytes, position + 4, 4);
        value_from_first_byte(bytes, position + 5, 3);
        value_from_first_byte(bytes, position + 6, 2);
        value_from_first_byte(bytes, position + 7, 1);
        assert(bytes.subrange(position + 8, position + 8).len() == 0);
    }
}

/// A list of numbers is read from places that are as far apart as a number is
/// wide.
pub proof fn listed_numbers_are_read_in_order(
    bytes: Seq<u8>,
    position: int,
    count: nat,
    place: int,
)
    requires
        0 <= position,
        0 <= place < count,
    ensures
        words_at(bytes, position, count).len() == count,
        long_words_at(bytes, position, count).len() == count,
        position + 4 * count <= bytes.len() ==> words_at(bytes, position, count)[place]
            == short_number(bytes, position + 4 * place),
        position + 8 * count <= bytes.len() ==> long_words_at(bytes, position, count)[place]
            == long_number(bytes, position + 8 * place),
{
    later_bytes_weigh_more(bytes, position + 4 * place);
    later_bytes_weigh_more(bytes, position + 8 * place);
}

/// A list of numbers is written in order: the bytes of the number at a place are
/// those from that many widths on.
pub proof fn listed_numbers_are_written_in_order(values: Seq<u32>, longs: Seq<u64>, place: int)
    requires
        0 <= place,
    ensures
        words(values).len() == 4 * values.len(),
        long_words(longs).len() == 8 * longs.len(),
        place < values.len() ==> short_number(words(values), 4 * place) == values[place],
        place < longs.len() ==> long_number(long_words(longs), 8 * place) == longs[place],
{
    words_len(values);
    long_words_len(longs);
    if place < values.len() {
        let bytes = words(values);
        assert(bytes.subrange(0, bytes.len() as int) =~= bytes);
        words_read_back(bytes, 0, values);
        listed_numbers_are_read_in_order(bytes, 0, values.len(), place);
    }
    if place < longs.len() {
        let bytes = long_words(longs);
        assert(bytes.subrange(0, bytes.len() as int) =~= bytes);
        long_words_read_back(bytes, 0, longs);
        listed_numbers_are_read_in_order(bytes, 0, longs.len(), place);
    }
}

} // verus!
