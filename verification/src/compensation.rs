//! The fixed-point compensation formulas that turn raw converter counts into
//! temperature and pressure.
//!
//! Everything here is stated over unbounded integers. A right shift in the
//! formulas is a division that rounds towards minus infinity, which is what
//! `/` means on `int` for a positive divisor.

use vstd::prelude::*;

verus! {

/// The six factory coefficients of one sensor.
#[derive(Clone, Copy, Debug, PartialEq, Eq)]
pub struct CalibrationSet {
    /// Pressure sensitivity at the reference temperature (SENS).
    pub pressure_sensitivity: u16,
    /// Pressure offset at the reference temperature (OFF).
    pub pressure_offset: u16,
    /// Temperature coefficient of the pressure sensitivity (TCS).
    pub temp_coef_pressure_sensitivity: u16,
    /// Temperature coefficient of the pressure offset (TCO).
    pub temp_coef_pressure_offset: u16,
    /// Reference temperature (T_REF).
    pub reference_temperature: u16,
    /// Temperature coefficient of the temperature reading (TEMPSENS).
    pub temp_coef_temperature: u16,
}

/// One compensated reading.
#[derive(Clone, Copy, Debug, PartialEq, Eq)]
pub struct SensorData {
    /// Temperature in hundredths of a degree Celsius.
    pub temperature: i32,
    /// Pressure in hundredths of a millibar.
    pub pressure: i32,
}

/// The 24-bit count that three bytes from the converter stand for, most
/// significant byte first.
pub open spec fn sample_value(bytes: Seq<u8>) -> int {
    bytes[0] * 65536 + bytes[1] * 256 + bytes[2]
}

/// Distance of the raw temperature from the reference temperature.
pub open spec fn temp_difference(cal: CalibrationSet, d2: int) -> int {
    d2 - cal.reference_temperature * 256
}

/// Temperature by the first-order formula.
pub open spec fn first_order_temperature(cal: CalibrationSet, d2: int) -> int {
    2000 + (temp_difference(cal, d2) * cal.temp_coef_temperature) / 8388608
}

/// Pressure offset at the measured temperature, by the first-order formula.
pub open spec fn first_order_offset(cal: CalibrationSet, d2: int) -> int {
    cal.pressure_offset * 131072 + (cal.temp_coef_pressure_offset * temp_difference(cal, d2)) / 64
}

/// Pressure sensitivity at the measured temperature, by the first-order
/// formula.
pub open spec fn first_order_sensitivity(cal: CalibrationSet, d2: int) -> int {
    cal.pressure_sensitivity * 65536 + (cal.temp_coef_pressure_sensitivity * temp_difference(
        cal,
        d2,
    )) / 128
}

/// Pressure from a raw count and a given sensitivity and offset.
pub open spec fn pressure_from(d1: int, sensitivity: int, offset: int) -> int {
    ((d1 * sensitivity) / 2097152 - offset) / 32768
}

/// Pressure by the first-order formulas alone.
pub open spec fn first_order_pressure(cal: CalibrationSet, d1: int, d2: int) -> int {
    pressure_from(d1, first_order_sensitivity(cal, d2), first_order_offset(cal, d2))
}

/// Second-order term taken off the temperature.
pub open spec fn temperature_correction(cal: CalibrationSet, d2: int) -> int {
    (11 * (temp_difference(cal, d2) * temp_difference(cal, d2))) / 34359738368
}

/// Second-order term taken off the pressure offset.
pub open spec fn offset_correction(cal: CalibrationSet, d2: int) -> int {
    let below = first_order_temperature(cal, d2) - 2000;
    (31 * (below * below)) / 8
}

/// Second-order term taken off the pressure sensitivity.
pub open spec fn sensitivity_correction(cal: CalibrationSet, d2: int) -> int {
    let below = first_order_temperature(cal, d2) - 2000;
    (63 * (below * below)) / 32
}

/// Whether a reading takes the second-order correction: only strictly below
/// 20.00 degrees.
pub open spec fn needs_correction(cal: CalibrationSet, d2: int) -> bool {
    first_order_temperature(cal, d2) < 2000
}

/// The temperature reported for a raw temperature count.
pub open spec fn compensated_temperature(cal: CalibrationSet, d2: int) -> int {
    if needs_correction(cal, d2) {
        first_order_temperature(cal, d2) - temperature_correction(cal, d2)
    } else {
        first_order_temperature(cal, d2)
    }
}

/// The pressure reported for a pair of raw counts.
pub open spec fn compensated_pressure(cal: CalibrationSet, d1: int, d2: int) -> int {
    if needs_correction(cal, d2) {
        pressure_from(
            d1,
            first_order_sensitivity(cal, d2) - sensitivity_correction(cal, d2),
            first_order_offset(cal, d2) - offset_correction(cal, d2),
        )
    } else {
        first_order_pressure(cal, d1, d2)
    }
}

/// A raw count as the converter delivers it: 24 bits, unsigned.
pub open spec fn is_sample(d: int) -> bool {
    0 <= d < 16777216
}

proof fn lemma_product_range(a: int, b: int, a_max: int, b_max: int)
    by (nonlinear_arith)
    requires
        -a_max <= a <= a_max,
        -b_max <= b <= b_max,
    ensures
        -(a_max * b_max) <= a * b <= a_max * b_max,
{
}

proof fn lemma_negative_product(a: int, b: int)
    by (nonlinear_arith)
    requires
        a < 0,
        b >= 0,
    ensures
        a * b <= 0,
        b > 0 ==> a * b < 0,
{
}

proof fn lemma_square_range(a: int, a_max: int)
    by (nonlinear_arith)
    requires
        -a_max <= a <= a_max,
    ensures
        0 <= a * a <= a_max * a_max,
{
}

proof fn lemma_shift_right_3(x: i64)
    by (bit_vector)
    ensures
        x >> 3 == x / 8,
{
}

proof fn lemma_shift_right_5(x: i64)
    by (bit_vector)
    ensures
        x >> 5 == x / 32,
{
}

proof fn lemma_shift_right_6(x: i64)
    by (bit_vector)
    ensures
        x >> 6 == x / 64,
{
}

proof fn lemma_shift_right_7(x: i64)
    by (bit_vector)
    ensures
        x >> 7 == x / 128,
{
}

proof fn lemma_shift_right_15(x: i64)
    by (bit_vector)
    ensures
        x >> 15 == x / 32768,
{
}

proof fn lemma_shift_right_21(x: i64)
    by (bit_vector)
    ensures
        x >> 21 == x / 2097152,
{
}

proof fn lemma_shift_right_23(x: i64)
    by (bit_vector)
    ensures
        x >> 23 == x / 8388608,
{
}

proof fn lemma_shift_right_35(x: i64)
    by (bit_vector)
    ensures
        x >> 35 == x / 34359738368,
{
}

proof fn lemma_shift_left_is_multiplication(x: i64)
    by (bit_vector)
    requires
        0 <= x < 65536,
    ensures
        x << 8 == x * 256,
        x << 16 == x * 65536,
        x << 17 == x * 131072,
{
}

proof fn lemma_sample_bits(b0: u8, b1: u8, b2: u8)
    by (bit_vector)
    ensures
        ((b0 as u32) << 16 | (b1 as u32) << 8 | (b2 as u32)) == b0 * 65536 + b1 * 256 + b2,
{
}

/// Assembles the 24-bit count from the three bytes read from the converter,
/// most significant byte first.
pub fn digital_sample(bytes: [u8; 3]) -> (value: u32)
    ensures
        value == sample_value(bytes@),
        is_sample(value as int),
{
    proof {
        lemma_sample_bits(bytes[0], bytes[1], bytes[2]);
    }
    (bytes[0] as u32) << 16 | (bytes[1] as u32) << 8 | (bytes[2] as u32)
}

/// `(d1 * sensitivity >> 21) - offset >> 15`, for operands small enough that
/// no step leaves 64 bits and the result fits 32 bits.
fn scaled_pressure(d1: i64, sensitivity: i64, offset: i64) -> (pressure: i32)
    requires
        is_sample(d1 as int),
        -0x10_0000_0000 <= sensitivity <= 0x10_0000_0000,
        -0x20_0000_0000 <= offset <= 0x20_0000_0000,
    ensures
        pressure == pressure_from(d1 as int, sensitivity as int, offset as int),
{
    proof {
        lemma_product_range(d1 as int, sensitivity as int, 0x100_0000, 0x10_0000_0000);
    }
    let product: i64 = d1 * sensitivity;
    proof {
        lemma_shift_right_21(product);
    }
    let difference: i64 = (product >> 21) - offset;
    proof {
        lemma_shift_right_15(difference);
    }
    (difference >> 15) as i32
}

/// Applies the compensation formulas to a pair of raw counts.
pub fn compensate(cal: &CalibrationSet, digital_pressure: u32, digital_temperature: u32) -> (data:
    SensorData)
    requires
        is_sample(digital_pressure as int),
        is_sample(digital_temperature as int),
    ensures
        data.temperature == compensated_temperature(*cal, digital_temperature as int),
        data.pressure == compensated_pressure(
            *cal,
            digital_pressure as int,
            digital_temperature as int,
        ),
{
    let d1: i64 = digital_pressure as i64;
    let d2: i64 = digital_temperature as i64;
    let reference: i64 = cal.reference_temperature as i64;
    let temp_coef: i64 = cal.temp_coef_temperature as i64;
    let offset_base: i64 = cal.pressure_offset as i64;
    let offset_coef: i64 = cal.temp_coef_pressure_offset as i64;
    let sensitivity_base: i64 = cal.pressure_sensitivity as i64;
    let sensitivity_coef: i64 = cal.temp_coef_pressure_sensitivity as i64;
    proof {
        lemma_shift_left_is_multiplication(reference);
        lemma_shift_left_is_multiplication(offset_base);
        lemma_shift_left_is_multiplication(sensitivity_base);
    }
    let temp_difference: i64 = d2 - (reference << 8);
    proof {
        lemma_product_range(temp_difference as int, temp_coef as int, 0x100_0000, 0x1_0000);
        lemma_product_range(offset_coef as int, temp_difference as int, 0x1_0000, 0x100_0000);
        lemma_product_range(sensitivity_coef as int, temp_difference as int, 0x1_0000, 0x100_0000);
        lemma_shift_right_23((temp_difference * temp_coef) as i64);
        lemma_shift_right_6((offset_coef * temp_difference) as i64);
        lemma_shift_right_7((sensitivity_coef * temp_difference) as i64);
    }
    let above_reference: i64 = (temp_difference * temp_coef) >> 23;
    let actual_temperature: i64 = 2000 + above_reference;
    let offset: i64 = (offset_base << 17) + ((offset_coef * temp_difference) >> 6);
    let sensitivity: i64 = (sensitivity_base << 16) + ((sensitivity_coef * temp_difference) >> 7);

    if actual_temperature < 2000 {
        proof {
            lemma_square_range(temp_difference as int, 0x100_0000);
            lemma_square_range(above_reference as int, 0x2_0000);
            lemma_shift_right_35((11 * (temp_difference * temp_difference)) as i64);
            lemma_shift_right_3((31 * (above_reference * above_reference)) as i64);
            lemma_shift_right_5((63 * (above_reference * above_reference)) as i64);
        }
        let t_i: i64 = (11 * (temp_difference * temp_difference)) >> 35;
        let off_i: i64 = (31 * (above_reference * above_reference)) >> 3;
        let sens_i: i64 = (63 * (above_reference * above_reference)) >> 5;
        let off2: i64 = offset - off_i;
        let sens2: i64 = sensitivity - sens_i;
        let temp2: i64 = actual_temperature - t_i;
        SensorData { temperature: temp2 as i32, pressure: scaled_pressure(d1, sens2, off2) }
    } else {
        SensorData {
            temperature: actual_temperature as i32,
            pressure: scaled_pressure(d1, sensitivity, offset),
        }
    }
}

/// Below 20.00 degrees the first-order values are not reported as they are:
/// the temperature comes out lower by exactly the temperature correction, and
/// the pressure is computed anew from the offset and the sensitivity, each
/// lowered by exactly its correction. None of the three corrections is
/// negative, and those of the offset and the sensitivity are never zero.
pub proof fn lemma_correction_below_20_degrees(cal: CalibrationSet, d1: int, d2: int)
    requires
        first_order_temperature(cal, d2) < 2000,
    ensures
        compensated_temperature(cal, d2) == first_order_temperature(cal, d2)
            - temperature_correction(cal, d2),
        compensated_pressure(cal, d1, d2) == pressure_from(
            d1,
            first_order_sensitivity(cal, d2) - sensitivity_correction(cal, d2),
            first_order_offset(cal, d2) - offset_correction(cal, d2),
        ),
        temperature_correction(cal, d2) >= 0,
        offset_correction(cal, d2) >= 3,
        sensitivity_correction(cal, d2) >= 1,
        compensated_temperature(cal, d2) <= first_order_temperature(cal, d2),
{
    let difference = temp_difference(cal, d2);
    let below = first_order_temperature(cal, d2) - 2000;
    assert(difference * difference >= 0) by (nonlinear_arith);
    assert(below * below >= 1) by (nonlinear_arith)
        requires
            below <= -1,
    ;
}

/// From 20.00 degrees on the first-order values are reported as they are. The
/// comparison is strict: a first-order temperature of exactly 2000 takes no
/// correction.
pub proof fn lemma_no_correction_from_20_degrees(cal: CalibrationSet, d1: int, d2: int)
    requires
        first_order_temperature(cal, d2) >= 2000,
    ensures
        !needs_correction(cal, d2),
        compensated_temperature(cal, d2) == first_order_temperature(cal, d2),
        compensated_pressure(cal, d1, d2) == first_order_pressure(cal, d1, d2),
{
}

/// A raw temperature below the reference keeps its sign through every
/// formula: the temperature term, the offset term and the sensitivity term
/// that it contributes are all at most zero, so that the first-order values
/// lie at or below their values at the reference temperature. With a
/// temperature coefficient that is not zero, the reading lies strictly below
/// 20.00 degrees and takes the second-order correction.
pub proof fn lemma_negative_difference_keeps_its_sign(cal: CalibrationSet, d2: int)
    requires
        temp_difference(cal, d2) < 0,
    ensures
        first_order_temperature(cal, d2) <= 2000,
        first_order_offset(cal, d2) <= cal.pressure_offset * 131072,
        first_order_sensitivity(cal, d2) <= cal.pressure_sensitivity * 65536,
        cal.temp_coef_temperature > 0 ==> needs_correction(cal, d2),
        cal.temp_coef_pressure_offset > 0 ==> first_order_offset(cal, d2) < cal.pressure_offset
            * 131072,
        cal.temp_coef_pressure_sensitivity > 0 ==> first_order_sensitivity(cal, d2)
            < cal.pressure_sensitivity * 65536,
{
    let difference = temp_difference(cal, d2);
    lemma_negative_product(difference, cal.temp_coef_temperature as int);
    lemma_negative_product(difference, cal.temp_coef_pressure_offset as int);
    lemma_negative_product(difference, cal.temp_coef_pressure_sensitivity as int);
    assert(cal.temp_coef_pressure_offset * difference == difference
        * cal.temp_coef_pressure_offset) by (nonlinear_arith);
    assert(cal.temp_coef_pressure_sensitivity * difference == difference
        * cal.temp_coef_pressure_sensitivity) by (nonlinear_arith);
}

/// What is reported for counts of 24 bits fits 32 bits with room to spare,
/// whatever the calibration set: no value is cut off on the way out.
pub proof fn lemma_reading_is_in_range(cal: CalibrationSet, d1: int, d2: int)
    requires
        is_sample(d1),
        is_sample(d2),
    ensures
        -0x4_0000 <= compensated_temperature(cal, d2) <= 0x4_0000,
        -0x200_0000 <= compensated_pressure(cal, d1, d2) <= 0x200_0000,
{
    let difference = temp_difference(cal, d2);
    let below = first_order_temperature(cal, d2) - 2000;
    lemma_product_range(difference, cal.temp_coef_temperature as int, 0x100_0000, 0x1_0000);
    lemma_product_range(cal.temp_coef_pressure_offset as int, difference, 0x1_0000, 0x100_0000);
    lemma_product_range(
        cal.temp_coef_pressure_sensitivity as int,
        difference,
        0x1_0000,
        0x100_0000,
    );
    lemma_square_range(difference, 0x100_0000);
    lemma_square_range(below, 0x2_0000);
    let sensitivity = first_order_sensitivity(cal, d2);
    let corrected = sensitivity - sensitivity_correction(cal, d2);
    lemma_product_range(d1, sensitivity, 0x100_0000, 0x10_0000_0000);
    lemma_product_range(d1, corrected, 0x100_0000, 0x10_0000_0000);
}

} // verus!
