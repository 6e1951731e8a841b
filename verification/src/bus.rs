//! What the driver asks of the two-wire bus, one transaction at a time.
//!
//! The driver core performs no transfer itself. It names the next transaction
//! as a [`Request`], and is told how that transaction ended: `Err` with the
//! transport's own error when it failed, else `Ok` with a three-byte buffer
//! whose leading bytes are those that were read.

use vstd::prelude::*;

verus! {

/// Seven-bit bus address of the sensor.
pub const ADDRESS: u8 = 0x76;

/// Command: reset, which reloads the calibration memory.
pub const RESET: u8 = 0b0001_1110;

/// Command: read calibration word 0; word `n` is at `PROM_READ | (n << 1)`.
pub const PROM_READ: u8 = 0b1010_0000;

/// Command: start a pressure conversion.
pub const D1_OSR2048: u8 = 0b0100_0110;

/// Command: start a temperature conversion.
pub const D2_OSR2048: u8 = 0b0101_0110;

/// Command: select the result register of the converter.
pub const ADC_READ: u8 = 0b0000_0000;

/// Number of refused attempts to select the result register after which a
/// reading is given up.
pub const READ_TIMEOUT_ITER: u8 = 200;

/// One transaction with the device at [`ADDRESS`].
#[derive(Clone, Copy, Debug, PartialEq, Eq)]
pub enum Request {
    /// Write the one command byte.
    Write(u8),
    /// Write the one command byte, then read two bytes in the same
    /// transaction.
    WriteRead(u8),
    /// Read three bytes.
    Read,
}

/// Where a sequence of transactions stands after one of them ended.
#[derive(Debug, PartialEq, Eq)]
pub enum Step<S, T> {
    /// More transactions are needed; the state names the next one.
    Next(S),
    /// The sequence is over, with this outcome.
    Done(T),
}

/// A transaction that ended well, with the bytes it read (if any) at the
/// front of the buffer, or the transport's error.
pub type Reply<E> = Result<[u8; 3], E>;

/// The command that reads calibration word `index`.
pub open spec fn prom_read_command(index: int) -> u8 {
    (160 + 2 * index) as u8
}

/// The 16-bit word that the first two bytes of a buffer stand for, most
/// significant byte first.
pub open spec fn word_value(bytes: Seq<u8>) -> u16 {
    (bytes[0] * 256 + bytes[1]) as u16
}

proof fn lemma_prom_read_bits(index: u8)
    by (bit_vector)
    requires
        index <= 7,
    ensures
        0b1010_0000u8 | (index << 1) == 160 + 2 * index,
{
}

proof fn lemma_word_bits(high: u8, low: u8)
    by (bit_vector)
    ensures
        ((high as u16) << 8 | (low as u16)) == high * 256 + low,
{
}

/// The command byte that reads calibration word `index`.
pub(crate) fn prom_read(index: u8) -> (command: u8)
    requires
        index <= 7,
    ensures
        command == prom_read_command(index as int),
{
    proof {
        lemma_prom_read_bits(index);
    }
    PROM_READ | (index << 1)
}

/// Assembles a calibration word from the first two bytes of a buffer, most
/// significant byte first.
pub fn be_word(bytes: &[u8; 3]) -> (word: u16)
    ensures
        word == word_value(bytes@),
{
    proof {
        lemma_word_bits(bytes[0], bytes[1]);
    }
    (bytes[0] as u16) << 8 | (bytes[1] as u16)
}

} // verus!
