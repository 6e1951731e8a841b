//! The calibrated sensor: a calibration set that passed its integrity check,
//! and the readings computed with it.

use vstd::prelude::*;
use crate::checksum::{crc4, intact};
use crate::compensation::{
    compensate,
    compensated_pressure,
    compensated_temperature,
    digital_sample,
    sample_value,
    CalibrationSet,
    SensorData,
};

verus! {

/// The calibration block did not carry the checksum of its own contents.
#[derive(Clone, Copy, Debug, PartialEq, Eq)]
pub struct ChecksumMismatch;

/// The coefficients that a calibration block holds, in words 1 to 6.
pub open spec fn coefficients_of(block: Seq<u16>) -> CalibrationSet {
    CalibrationSet {
        pressure_sensitivity: block[1],
        pressure_offset: block[2],
        temp_coef_pressure_sensitivity: block[3],
        temp_coef_pressure_offset: block[4],
        reference_temperature: block[5],
        temp_coef_temperature: block[6],
    }
}

/// The reading that a calibration set gives for the bytes of a pressure and a
/// temperature conversion.
pub open spec fn reading(cal: CalibrationSet, pressure: Seq<u8>, temperature: Seq<u8>) -> SensorData {
    SensorData {
        temperature: compensated_temperature(cal, sample_value(temperature)) as i32,
        pressure: compensated_pressure(
            cal,
            sample_value(pressure),
            sample_value(temperature),
        ) as i32,
    }
}

/// An MS5837-02BA with its factory calibration loaded and checked.
///
/// The calibration set never changes after construction.
#[allow(non_camel_case_types)]
#[derive(Debug)]
pub struct Ms5837_02ba {
    calibration: CalibrationSet,
}

impl View for Ms5837_02ba {
    type V = CalibrationSet;

    closed spec fn view(&self) -> CalibrationSet {
        self.calibration
    }
}

impl Ms5837_02ba {
    /// Builds the sensor from the contents of its calibration memory.
    ///
    /// Succeeds exactly when the block is intact, that is when the nibble
    /// stored at the top of word 0 is the checksum of the block. The
    /// coefficients are then words 1 to 6; word 7 is never looked at.
    pub fn new(prom: [u16; 8]) -> (result: Result<Ms5837_02ba, ChecksumMismatch>)
        ensures
            result is Ok <==> intact(prom@),
            result matches Ok(sensor) ==> sensor@ == coefficients_of(prom@),
    {
        let stored: u8 = (prom[0] >> 12) as u8;
        proof {
            lemma_stored_nibble(prom[0]);
        }
        let mut block: [u16; 8] = prom;
        let computed: u8 = crc4(&mut block);
        if stored != computed {
            return Err(ChecksumMismatch);
        }
        Ok(
            Ms5837_02ba {
                calibration: CalibrationSet {
                    pressure_sensitivity: prom[1],
                    pressure_offset: prom[2],
                    temp_coef_pressure_sensitivity: prom[3],
                    temp_coef_pressure_offset: prom[4],
                    reference_temperature: prom[5],
                    temp_coef_temperature: prom[6],
                },
            },
        )
    }

    /// The calibration set in use.
    pub fn coefficients(&self) -> (cal: CalibrationSet)
        ensures
            cal == self@,
    {
        self.calibration
    }

    /// Computes the compensated reading from the bytes of a finished pressure
    /// conversion and of a finished temperature conversion, each most
    /// significant byte first.
    ///
    /// The results are exactly those of the compensation formulas over
    /// unbounded integers; in particular nothing wraps or loses its sign when
    /// the raw temperature lies below the reference temperature.
    pub fn read(&self, pressure: [u8; 3], temperature: [u8; 3]) -> (data: SensorData)
        ensures
            data.temperature == compensated_temperature(self@, sample_value(temperature@)),
            data.pressure == compensated_pressure(
                self@,
                sample_value(pressure@),
                sample_value(temperature@),
            ),
            data == reading(self@, pressure@, temperature@),
    {
        let digital_pressure: u32 = digital_sample(pressure);
        let digital_temperature: u32 = digital_sample(temperature);
        compensate(&self.calibration, digital_pressure, digital_temperature)
    }
}

proof fn lemma_stored_nibble(word: u16)
    by (bit_vector)
    ensures
        word >> 12 == word / 4096,
        word >> 12 < 16,
{
}

} // verus!
