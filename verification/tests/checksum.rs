use ms5837_02ba::checksum::crc4;

const COEFFICIENTS: [u16; 6] = [46372, 43981, 29059, 27842, 31553, 28165];

fn block(word0: u16, word7: u16) -> [u16; 8] {
    [
        word0,
        COEFFICIENTS[0],
        COEFFICIENTS[1],
        COEFFICIENTS[2],
        COEFFICIENTS[3],
        COEFFICIENTS[4],
        COEFFICIENTS[5],
        word7,
    ]
}

/// Bit-serial division of the message by x^4 + x + 1: the first fifteen
/// bytes of the masked block, followed by four zero bits.
fn remainder_by_long_division(prom: &[u16; 8]) -> u8 {
    let mut words = *prom;
    words[0] &= 0x0FFF;
    words[7] = 0;
    let mut register: u8 = 0;
    let mut taken = 0;
    for word in words {
        for bit in (0..16).rev() {
            if taken == 124 {
                return register;
            }
            let carry = register & 0x8 != 0;
            register = ((register << 1) & 0xF) | ((word >> bit) & 1) as u8;
            if carry {
                register ^= 0x3;
            }
            taken += 1;
        }
    }
    register
}

#[test]
fn crc4_of_reference_block() {
    let mut prom = block(0x0123, 0);
    assert_eq!(crc4(&mut prom), 8);
    assert_eq!(prom, block(0x0123, 0));
}

#[test]
fn crc4_of_block_with_all_low_bits_set() {
    let mut prom = block(0x0FFF, 0);
    assert_eq!(crc4(&mut prom), 15);
}

#[test]
fn crc4_of_zero_block_is_zero() {
    let mut prom = [0u16; 8];
    assert_eq!(crc4(&mut prom), 0);
    assert_eq!(prom, [0u16; 8]);
}

#[test]
fn crc4_of_text_block() {
    let mut prom = [0x3132, 0x3334, 0x3536, 0x3738, 0x3940, 0x4142, 0x4344, 0x4500];
    assert_eq!(crc4(&mut prom), 0);
    assert_eq!(prom, [0x0132, 0x3334, 0x3536, 0x3738, 0x3940, 0x4142, 0x4344, 0x0000]);
}

#[test]
fn crc4_masks_word_0_and_clears_word_7() {
    let mut prom = block(0xF123, 0xBEEF);
    assert_eq!(crc4(&mut prom), 8);
    assert_eq!(prom[0], 0x0123);
    assert_eq!(prom[7], 0);
    assert_eq!(&prom[1..7], &COEFFICIENTS[..]);
}

#[test]
fn crc4_is_idempotent_on_masked_block() {
    let mut prom = block(0xA5C3, 0x1234);
    let first = crc4(&mut prom);
    let masked = prom;
    let second = crc4(&mut prom);
    assert_eq!(first, second);
    assert_eq!(prom, masked);
}

#[test]
fn crc4_ignores_stored_nibble_and_word_7() {
    let mut plain = block(0x0456, 0);
    let expected = crc4(&mut plain);
    for nibble in 0..16u16 {
        for word7 in [0u16, 1, 0x00FF, 0xFF00, 0xFFFF] {
            let mut prom = block((nibble << 12) | 0x0456, word7);
            assert_eq!(crc4(&mut prom), expected);
        }
    }
}

#[test]
fn crc4_is_a_nibble() {
    for seed in 0..512u16 {
        let mut prom = [
            seed.wrapping_mul(40503),
            seed.wrapping_mul(12345).wrapping_add(7),
            seed ^ 0x5A5A,
            seed.rotate_left(3),
            !seed,
            seed.wrapping_mul(seed),
            seed.wrapping_add(0x8000),
            seed,
        ];
        assert!(crc4(&mut prom) < 16);
    }
}

#[test]
fn crc4_agrees_with_long_division() {
    for seed in 0..512u16 {
        let prom = [
            seed.wrapping_mul(40503),
            seed.wrapping_mul(12345).wrapping_add(7),
            seed ^ 0x5A5A,
            seed.rotate_left(3),
            !seed,
            seed.wrapping_mul(seed),
            seed.wrapping_add(0x8000),
            seed,
        ];
        let mut copy = prom;
        assert_eq!(crc4(&mut copy), remainder_by_long_division(&prom));
    }
}

#[test]
fn crc4_notices_a_single_flipped_bit() {
    let mut reference = block(0x0123, 0);
    let expected = crc4(&mut reference);
    for word in 0..7usize {
        for bit in 0..16u16 {
            if word == 0 && bit >= 12 {
                continue;
            }
            let mut prom = block(0x0123, 0);
            prom[word] ^= 1 << bit;
            assert_ne!(crc4(&mut prom), expected);
        }
    }
}
