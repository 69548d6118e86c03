//! How numbers stand in bytes and in text.
use crate::bytes::{byte_range, law_decode_of_encode, le_bytes, le_value, lemma_le_bytes_len};
use crate::text::{decimal, digit_text};
use vstd::prelude::*;

verus! {

/// Eight bytes stand for a number in base 256, the first for its units.
pub proof fn law_bytes_are_positional(bytes: Seq<u8>)
    requires
        bytes.len() == 8,
    ensures
        le_value(bytes) == bytes[0] + 0x100 * bytes[1] + 0x1_0000 * bytes[2] + 0x100_0000
            * bytes[3] + 0x1_0000_0000 * bytes[4] + 0x100_0000_0000 * bytes[5] + 0x1_0000_0000_0000
            * bytes[6] + 0x100_0000_0000_0000 * bytes[7],
{
    let r1 = bytes.drop_first();
    let r2 = r1.drop_first();
    let r3 = r2.drop_first();
    let r4 = r3.drop_first();
    let r5 = r4.drop_first();
    let r6 = r5.drop_first();
    let r7 = r6.drop_first();
    let r8 = r7.drop_first();
    assert(le_value(r8) == 0);
    assert(le_value(r7) == bytes[7]);
    assert(le_value(r6) == bytes[6] + 256 * le_value(r7));
    assert(le_value(r5) == bytes[5] + 256 * le_value(r6));
    assert(le_value(r4) == bytes[4] + 256 * le_value(r5));
    assert(le_value(r3) == bytes[3] + 256 * le_value(r4));
    assert(le_value(r2) == bytes[2] + 256 * le_value(r3));
    assert(le_value(r1) == bytes[1] + 256 * le_value(r2));
}

proof fn lemma_byte_of(
    x: u64,
    b0: u8,
    b1: u8,
    b2: u8,
    b3: u8,
    b4: u8,
    b5: u8,
    b6: u8,
    b7: u8,
)
    requires
        x == b0 + 0x100 * b1 + 0x1_0000 * b2 + 0x100_0000 * b3 + 0x1_0000_0000 * b4
            + 0x100_0000_0000 * b5 + 0x1_0000_0000_0000 * b6 + 0x100_0000_0000_0000 * b7,
    ensures
        x & 0xff == b0,
        (x >> 8) & 0xff == b1,
        (x >> 16) & 0xff == b2,
        (x >> 24) & 0xff == b3,
        (x >> 32) & 0xff == b4,
        (x >> 40) & 0xff == b5,
        (x >> 48) & 0xff == b6,
        (x >> 56) & 0xff == b7,
{
    assert(x & 0xff == b0 && (x >> 8) & 0xff == b1 && (x >> 16) & 0xff == b2 && (x >> 24) & 0xff
        == b3 && (x >> 32) & 0xff == b4 && (x >> 40) & 0xff == b5 && (x >> 48) & 0xff == b6 && (x
        >> 56) & 0xff == b7) by (bit_vector)
        requires
            x == b0 + 0x100 * b1 + 0x1_0000 * b2 + 0x100_0000 * b3 + 0x1_0000_0000 * b4
                + 0x100_0000_0000 * b5 + 0x1_0000_0000_0000 * b6 + 0x100_0000_0000_0000 * b7,
    ;
}

/// Byte `i` of a number is what is left of it when it is shifted by `8 * i`
/// bits and cut to eight.
pub proof fn law_bytes_are_shifts(bytes: Seq<u8>, number: u64, i: int)
    requires
        bytes.len() == 8,
        le_value(bytes) == number,
        0 <= i < 8,
    ensures
        (number >> (8 * i) as u64) & 0xff == bytes[i],
{
    law_bytes_are_positional(bytes);
    lemma_byte_of(
        number,
        bytes[0],
        bytes[1],
        bytes[2],
        bytes[3],
        bytes[4],
        bytes[5],
        bytes[6],
        bytes[7],
    );
    assert(number >> 0u64 == number) by (bit_vector);
}

/// A number is written as its eight bytes, the least significant first.
pub proof fn law_number_is_written_byte_by_byte(number: u64, i: int)
    requires
        0 <= i < 8,
    ensures
        le_bytes(number as nat, 8).len() == 8,
        le_bytes(number as nat, 8)[i] == (number >> (8 * i) as u64) & 0xff,
{
    lemma_le_bytes_len(number as nat, 8);
    assert(number < byte_range(8)) by {
        reveal_with_fuel(byte_range, 9);
    }
    law_decode_of_encode(number as nat, 8);
    law_bytes_are_shifts(le_bytes(number as nat, 8), number, i);
}

/// The number that a text of decimal digits stands for.
pub open spec fn digits_value(text: Seq<char>) -> int
    decreases text.len(),
{
    if text.len() == 0 {
        0
    } else {
        10 * digits_value(text.drop_last()) + (text.last() as int - '0' as int)
    }
}

proof fn lemma_digit(d: nat)
    requires
        d < 10,
    ensures
        digit_text(d).len() == 1,
        digit_text(d)[0] as int == '0' as int + d,
{
    reveal_strlit("0");
    reveal_strlit("1");
    reveal_strlit("2");
    reveal_strlit("3");
    reveal_strlit("4");
    reveal_strlit("5");
    reveal_strlit("6");
    reveal_strlit("7");
    reveal_strlit("8");
    reveal_strlit("9");
}

/// The decimal text of a number is made of digits, stands for that number, and
/// has no leading zero.
pub proof fn law_decimal_text_stands_for_its_number(n: nat)
    ensures
        decimal(n).len() > 0,
        forall|i: int| 0 <= i < decimal(n).len() ==> '0' <= #[trigger] decimal(n)[i] <= '9',
        digits_value(decimal(n)) == n,
        n > 0 ==> decimal(n)[0] != '0',
        n == 0 ==> decimal(n).len() == 1,
    decreases n,
{
    if n < 10 {
        lemma_digit(n);
        let text = digit_text(n);
        assert(text.drop_last().len() == 0);
        assert(digits_value(text.drop_last()) == 0);
        assert(text.last() == text[0]);
    } else {
        law_decimal_text_stands_for_its_number(n / 10);
        lemma_digit(n % 10);
        let rest = decimal(n / 10);
        let last = digit_text(n % 10);
        assert((rest + last).drop_last() =~= rest);
        assert((rest + last).last() == last[0]);
        assert forall|i: int| 0 <= i < (rest + last).len() implies '0' <= #[trigger] (rest
            + last)[i] <= '9' by {
            if i < rest.len() {
                assert((rest + last)[i] == rest[i]);
            } else {
                assert((rest + last)[i] == last[0]);
            }
        }
    }
}

} // verus!
