//! Bytes on their way into a digest.

use vstd::prelude::*;
use vstd::utf8::encode_utf8;

verus! {

/// The eight bytes of an unsigned number, the most significant first.
pub open spec fn big_endian(value: u64) -> Seq<u8> {
    seq![
        ((value / 0x100_0000_0000_0000) % 256) as u8,
        ((value / 0x1_0000_0000_0000) % 256) as u8,
        ((value / 0x100_0000_0000) % 256) as u8,
        ((value / 0x1_0000_0000) % 256) as u8,
        ((value / 0x100_0000) % 256) as u8,
        ((value / 0x1_0000) % 256) as u8,
        ((value / 0x100) % 256) as u8,
        (value % 256) as u8,
    ]
}

/// The unsigned number with the same sixty-four bits, in two's complement.
pub open spec fn twos_complement(value: int) -> u64 {
    if value < 0 {
        (value + 0x1_0000_0000_0000_0000) as u64
    } else {
        value as u64
    }
}

/// The eight bytes of a signed number in two's complement, the most significant first.
pub open spec fn big_endian_signed(value: int) -> Seq<u8> {
    big_endian(twos_complement(value))
}

/// Appends bytes.
pub fn push_bytes(target: &mut Vec<u8>, bytes: &[u8])
    ensures
        final(target)@ == old(target)@ + bytes@,
{
    let mut index: usize = 0;
    while index < bytes.len()
        invariant
            index <= bytes.len(),
            target@ == old(target)@ + bytes@.take(index as int),
        decreases bytes.len() - index,
    {
        target.push(bytes[index]);
        index += 1;
        assert(target@ =~= old(target)@ + bytes@.take(index as int));
    }
    assert(bytes@.take(bytes@.len() as int) =~= bytes@);
}

/// Appends the bytes of a text.
pub fn push_text(target: &mut Vec<u8>, text: &str)
    ensures
        final(target)@ == old(target)@ + encode_utf8(text@),
{
    push_bytes(target, text.as_bytes());
}

/// Appends one byte.
pub fn push_byte(target: &mut Vec<u8>, byte: u8)
    ensures
        final(target)@ == old(target)@ + seq![byte],
{
    target.push(byte);
    assert(target@ =~= old(target)@ + seq![byte]);
}

/// Appends the eight bytes of an unsigned number.
pub fn push_unsigned(target: &mut Vec<u8>, value: u64)
    ensures
        final(target)@ == old(target)@ + big_endian(value),
{
    target.push(((value / 0x100_0000_0000_0000) % 256) as u8);
    target.push(((value / 0x1_0000_0000_0000) % 256) as u8);
    target.push(((value / 0x100_0000_0000) % 256) as u8);
    target.push(((value / 0x1_0000_0000) % 256) as u8);
    target.push(((value / 0x100_0000) % 256) as u8);
    target.push(((value / 0x1_0000) % 256) as u8);
    target.push(((value / 0x100) % 256) as u8);
    target.push((value % 256) as u8);
    assert(target@ =~= old(target)@ + big_endian(value));
}

/// Appends the eight bytes of a signed number.
pub fn push_signed(target: &mut Vec<u8>, value: i64)
    ensures
        final(target)@ == old(target)@ + big_endian_signed(value as int),
{
    let bits: u64 = if value < 0 {
        (value as i128 + 0x1_0000_0000_0000_0000i128) as u64
    } else {
        value as u64
    };
    push_unsigned(target, bits);
}

} // verus!
