//! The 4-bit cyclic redundancy check that guards the sensor's calibration
//! memory.
//!
//! The memory is eight 16-bit words. The top nibble of word 0 stores the
//! checksum of the rest; word 7 does not exist on this device and counts as
//! zero. The check runs over the sixteen bytes of the block, high byte of each
//! word first, after the stored nibble and word 7 have been cleared.

use vstd::prelude::*;

verus! {

/// The block as the check reads it: the stored checksum nibble cleared from
/// word 0, and word 7 forced to zero.
pub open spec fn masked(block: Seq<u16>) -> Seq<u16> {
    block.update(0, (block[0] % 4096) as u16).update(7, 0u16)
}

/// The sixteen bytes of a block, high byte of each word first.
pub open spec fn message(block: Seq<u16>) -> Seq<u8> {
    Seq::new(16, |i: int| if i % 2 == 0 {
        (block[i / 2] / 256) as u8
    } else {
        (block[i / 2] % 256) as u8
    })
}

/// One shift of the 16-bit remainder register: the register moves left by one
/// bit, and the polynomial `0x3000` is folded in when a set bit leaves it.
pub open spec fn shift_round(rem: u16) -> u16 {
    if rem & 0x8000 != 0 {
        (rem << 1) ^ 0x3000
    } else {
        rem << 1
    }
}

/// `n` shifts of the remainder register in a row.
pub open spec fn shift_rounds(rem: u16, n: nat) -> u16
    decreases n,
{
    if n == 0 {
        rem
    } else {
        shift_round(shift_rounds(rem, (n - 1) as nat))
    }
}

/// The remainder register after the given bytes went through it, starting
/// from zero: each byte is folded into the low byte of the register, which is
/// then shifted eight times.
pub open spec fn remainder(bytes: Seq<u8>) -> u16
    decreases bytes.len(),
{
    if bytes.len() == 0 {
        0
    } else {
        shift_rounds(remainder(bytes.drop_last()) ^ (bytes.last() as u16), 8)
    }
}

/// The checksum of a calibration block: the top four bits of the remainder of
/// its masked bytes.
pub open spec fn checksum(block: Seq<u16>) -> u8 {
    (remainder(message(masked(block))) >> 12) as u8
}

/// The checksum that the block itself carries, in the top nibble of word 0.
pub open spec fn stored_checksum(block: Seq<u16>) -> u8 {
    (block[0] / 4096) as u8
}

/// A block is intact when the checksum it carries is the checksum of its
/// contents.
pub open spec fn intact(block: Seq<u16>) -> bool {
    stored_checksum(block) == checksum(block)
}

proof fn lemma_word_bytes(word: u16)
    by (bit_vector)
    ensures
        word >> 8 == word / 256,
        word & 0x00FF == word % 256,
{
}

proof fn lemma_top_nibble(rem: u16)
    by (bit_vector)
    ensures
        (rem >> 12) & 0x000F == rem >> 12,
        rem >> 12 < 16,
        rem >> 12 == rem / 4096,
{
}

proof fn lemma_low_twelve_bits(word: u16)
    by (bit_vector)
    ensures
        word & 0x0FFF == word % 4096,
{
}

/// Computes the checksum of a calibration block.
///
/// The block is masked in place first: on return word 0 holds only its low
/// twelve bits and word 7 is zero, whatever they held before, and a block
/// that was in that form already is unchanged. The result is the four-bit
/// checksum of the block, to be held against the nibble that word 0 carried.
pub fn crc4(n_prom: &mut [u16; 8]) -> (crc: u8)
    ensures
        final(n_prom)@ == masked(old(n_prom)@),
        old(n_prom)@[0] < 4096 && old(n_prom)@[7] == 0 ==> final(n_prom)@ == old(n_prom)@,
        crc == checksum(old(n_prom)@),
        crc < 16,
{
    let mut n_rem: u16 = 0;
    proof {
        lemma_low_twelve_bits(n_prom[0]);
        lemma_masking_is_idempotent(n_prom@);
    }
    n_prom[0] = n_prom[0] & 0x0FFF;
    n_prom[7] = 0;
    let ghost block = n_prom@;
    let ghost bytes = message(block);
    assert(block == masked(old(n_prom)@));
    assert(bytes.take(0) == Seq::<u8>::empty());
    let mut cnt: usize = 0;
    while cnt < 16
        invariant
            cnt <= 16,
            n_prom@ == block,
            bytes == message(block),
            n_rem == remainder(bytes.take(cnt as int)),
        decreases 16 - cnt,
    {
        let word: u16 = n_prom[cnt / 2];
        let ghost before = n_rem;
        proof {
            lemma_word_bytes(word);
        }
        if cnt % 2 == 1 {
            n_rem = n_rem ^ (word & 0x00FF);
        } else {
            n_rem = n_rem ^ (word >> 8);
        }
        assert(n_rem == before ^ (bytes[cnt as int] as u16));
        let ghost folded = n_rem;
        let mut bit: u8 = 0;
        while bit < 8
            invariant
                bit <= 8,
                n_rem == shift_rounds(folded, bit as nat),
            decreases 8 - bit,
        {
            if (n_rem & 0x8000) != 0 {
                n_rem = (n_rem << 1) ^ 0x3000;
            } else {
                n_rem = n_rem << 1;
            }
            bit = bit + 1;
        }
        proof {
            let prefix = bytes.take(cnt as int + 1);
            assert(prefix.drop_last() == bytes.take(cnt as int));
            assert(prefix.last() == bytes[cnt as int]);
        }
        cnt = cnt + 1;
    }
    assert(bytes.take(16) == bytes);
    proof {
        lemma_top_nibble(n_rem);
    }
    ((n_rem >> 12) & 0x000F) as u8
}

/// Masking a block a second time changes nothing, and a block whose stored
/// nibble and last word are already clear is left as it is.
pub proof fn lemma_masking_is_idempotent(block: Seq<u16>)
    requires
        block.len() == 8,
    ensures
        masked(masked(block)) == masked(block),
        block[0] < 4096 && block[7] == 0 ==> masked(block) == block,
{
    assert(masked(masked(block)) =~= masked(block));
    if block[0] < 4096 && block[7] == 0 {
        assert(masked(block) =~= block);
    }
}

/// The checksum of a block is the checksum of its masked form: computing it
/// again on the block that `crc4` left behind gives the same value.
pub proof fn lemma_checksum_is_idempotent(block: Seq<u16>)
    requires
        block.len() == 8,
    ensures
        checksum(masked(block)) == checksum(block),
{
    lemma_masking_is_idempotent(block);
}

/// The checksum reads neither the stored nibble nor word 7: two blocks that
/// agree on the low twelve bits of word 0 and on words 1 to 6 have the same
/// checksum.
pub proof fn lemma_checksum_ignores_stored_nibble(a: Seq<u16>, b: Seq<u16>)
    requires
        a.len() == 8,
        b.len() == 8,
        a[0] % 4096 == b[0] % 4096,
        forall|i: int| 1 <= i <= 6 ==> a[i] == b[i],
    ensures
        checksum(a) == checksum(b),
{
    assert(masked(a) =~= masked(b));
}

/// A corrupted checksum is always noticed: of two blocks that differ in the
/// stored nibble alone, at most one is intact.
pub proof fn lemma_flipped_checksum_is_rejected(good: Seq<u16>, bad: Seq<u16>)
    requires
        good.len() == 8,
        bad.len() == 8,
        intact(good),
        good[0] % 4096 == bad[0] % 4096,
        good[0] / 4096 != bad[0] / 4096,
        forall|i: int| 1 <= i <= 6 ==> good[i] == bad[i],
    ensures
        !intact(bad),
{
    lemma_checksum_ignores_stored_nibble(good, bad);
}

/// One step of the long division by `x^4 + x + 1` over bits: the four-bit
/// remainder takes in the next bit of the dividend.
pub open spec fn divide_bit(rem: u8, bit: bool) -> u8 {
    let shifted = ((rem << 1) & 0x0F) | (if bit {
        1u8
    } else {
        0u8
    });
    if rem & 0x08 != 0 {
        shifted ^ 0x03
    } else {
        shifted
    }
}

/// The remainder after it took in the high nibble of `byte`, top bit first.
pub open spec fn divide_high_nibble(rem: u8, byte: u8) -> u8 {
    divide_bit(
        divide_bit(
            divide_bit(divide_bit(rem, byte & 0x80 != 0), byte & 0x40 != 0),
            byte & 0x20 != 0,
        ),
        byte & 0x10 != 0,
    )
}

/// The remainder after it took in the low nibble of `byte`, top bit first.
pub open spec fn divide_low_nibble(rem: u8, byte: u8) -> u8 {
    divide_bit(
        divide_bit(
            divide_bit(divide_bit(rem, byte & 0x08 != 0), byte & 0x04 != 0),
            byte & 0x02 != 0,
        ),
        byte & 0x01 != 0,
    )
}

/// The remainder after it took in all of `byte`, top bit first.
pub open spec fn divide_byte(rem: u8, byte: u8) -> u8 {
    divide_low_nibble(divide_high_nibble(rem, byte), byte)
}

/// The remainder that the bytes, read as one long polynomial over bits, leave
/// on division by `x^4 + x + 1`.
pub open spec fn division_remainder(bytes: Seq<u8>) -> u8
    decreases bytes.len(),
{
    if bytes.len() == 0 {
        0
    } else {
        divide_byte(division_remainder(bytes.drop_last()), bytes.last())
    }
}

/// The plain CRC-4 of a message: the remainder of the message, extended by
/// four zero bits, on division by `x^4 + x + 1`.
pub open spec fn crc4_of(bytes: Seq<u8>) -> u8 {
    divide_high_nibble(division_remainder(bytes), 0)
}

proof fn lemma_idle_register()
    by (bit_vector)
    ensures
        0u16 & 0x00FF == 0,
        0u16 >> 12 == 0u8 as u16,
        (0u16 >> 8) & 0x000F == (0u8 & 0x0F) as u16,
{
}

/// Eight shifts of the register take in one byte, and give the division the
/// low nibble of the byte before and the high nibble of this one.
proof fn lemma_byte_through_register(
    rem: u16,
    previous: u8,
    byte: u8,
    r0: u16,
    r1: u16,
    r2: u16,
    r3: u16,
    r4: u16,
    r5: u16,
    r6: u16,
    r7: u16,
    r8: u16,
    d0: u8,
    d1: u8,
    d2: u8,
    d3: u8,
    d4: u8,
    d5: u8,
    d6: u8,
    d7: u8,
    d8: u8,
)
    by (bit_vector)
    requires
        rem & 0x00FF == 0,
        d0 < 16,
        rem >> 12 == d0 as u16,
        (rem >> 8) & 0x000F == (previous & 0x0F) as u16,
        r0 == rem ^ (byte as u16),
        r1 == shift_round(r0),
        r2 == shift_round(r1),
        r3 == shift_round(r2),
        r4 == shift_round(r3),
        r5 == shift_round(r4),
        r6 == shift_round(r5),
        r7 == shift_round(r6),
        r8 == shift_round(r7),
        d1 == divide_bit(d0, previous & 0x08 != 0),
        d2 == divide_bit(d1, previous & 0x04 != 0),
        d3 == divide_bit(d2, previous & 0x02 != 0),
        d4 == divide_bit(d3, previous & 0x01 != 0),
        d5 == divide_bit(d4, byte & 0x80 != 0),
        d6 == divide_bit(d5, byte & 0x40 != 0),
        d7 == divide_bit(d6, byte & 0x20 != 0),
        d8 == divide_bit(d7, byte & 0x10 != 0),
    ensures
        r8 & 0x00FF == 0,
        d4 < 16,
        d8 < 16,
        r8 >> 12 == d8 as u16,
        (r8 >> 8) & 0x000F == (byte & 0x0F) as u16,
        d0 == 0 && previous == 0 ==> d4 == 0,
{
}

/// What links the register of the computation to the long division, once
/// `count` bytes went in: the low byte of the register is clear, its top
/// nibble is the remainder of the division up to the high nibble of the last
/// byte, and the low nibble of that byte waits below it.
spec fn register_follows_division(bytes: Seq<u8>, count: int) -> bool {
    let rem = remainder(bytes.take(count));
    let quotient = division_remainder(bytes.take(count - 1));
    let last = bytes[count - 1];
    &&& rem & 0x00FF == 0
    &&& divide_high_nibble(quotient, last) < 16
    &&& rem >> 12 == divide_high_nibble(quotient, last) as u16
    &&& (rem >> 8) & 0x000F == (last & 0x0F) as u16
}

proof fn lemma_register_follows_division(bytes: Seq<u8>, count: nat)
    requires
        1 <= count <= bytes.len(),
    ensures
        register_follows_division(bytes, count as int),
    decreases count,
{
    let prefix = bytes.take(count as int);
    let byte = bytes[count - 1];
    assert(prefix.drop_last() =~= bytes.take(count - 1));
    assert(prefix.last() == byte);
    let rem = remainder(bytes.take(count - 1));
    let previous = if count == 1 {
        0u8
    } else {
        bytes[count - 2]
    };
    let d0 = if count == 1 {
        0u8
    } else {
        divide_high_nibble(division_remainder(bytes.take(count - 2)), previous)
    };
    if count == 1 {
        lemma_idle_register();
    } else {
        lemma_register_follows_division(bytes, (count - 1) as nat);
        assert(bytes.take(count - 1).drop_last() =~= bytes.take(count - 2));
        assert(bytes.take(count - 1).last() == previous);
    }
    let r0 = rem ^ (byte as u16);
    let r1 = shift_round(r0);
    let r2 = shift_round(r1);
    let r3 = shift_round(r2);
    let r4 = shift_round(r3);
    let r5 = shift_round(r4);
    let r6 = shift_round(r5);
    let r7 = shift_round(r6);
    let r8 = shift_round(r7);
    let d1 = divide_bit(d0, previous & 0x08 != 0);
    let d2 = divide_bit(d1, previous & 0x04 != 0);
    let d3 = divide_bit(d2, previous & 0x02 != 0);
    let d4 = divide_bit(d3, previous & 0x01 != 0);
    let d5 = divide_bit(d4, byte & 0x80 != 0);
    let d6 = divide_bit(d5, byte & 0x40 != 0);
    let d7 = divide_bit(d6, byte & 0x20 != 0);
    let d8 = divide_bit(d7, byte & 0x10 != 0);
    lemma_byte_through_register(
        rem,
        previous,
        byte,
        r0,
        r1,
        r2,
        r3,
        r4,
        r5,
        r6,
        r7,
        r8,
        d0,
        d1,
        d2,
        d3,
        d4,
        d5,
        d6,
        d7,
        d8,
    );
    assert(remainder(prefix) == r8) by {
        reveal_with_fuel(shift_rounds, 9);
    }
    assert(division_remainder(bytes.take(count - 1)) == d4);
    assert(divide_high_nibble(d4, byte) == d8);
}

/// The checksum is a plain CRC-4: that of the first fifteen bytes of the
/// masked block, which are words 0 to 6 and one zero byte. The sixteen-bit
/// register of the computation holds the four-bit remainder of the division
/// in its top nibble, twelve bits behind the byte that comes in.
pub proof fn lemma_checksum_is_crc4(block: Seq<u16>)
    requires
        block.len() == 8,
    ensures
        checksum(block) == crc4_of(message(masked(block)).take(15)),
{
    let bytes = message(masked(block));
    lemma_register_follows_division(bytes, 16);
    assert(bytes.take(16) =~= bytes);
    assert(bytes[15] == 0);
    lemma_top_nibble(remainder(bytes));
}

} // verus!
