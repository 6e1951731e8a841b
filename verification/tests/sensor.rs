use ms5837_02ba::checksum::crc4;
use ms5837_02ba::compensation::{compensate, digital_sample};
use ms5837_02ba::{CalibrationSet, ChecksumMismatch, Ms5837_02ba, SensorData};

const REFERENCE: CalibrationSet = CalibrationSet {
    pressure_sensitivity: 46372,
    pressure_offset: 43981,
    temp_coef_pressure_sensitivity: 29059,
    temp_coef_pressure_offset: 27842,
    reference_temperature: 31553,
    temp_coef_temperature: 28165,
};

const LARGEST: CalibrationSet = CalibrationSet {
    pressure_sensitivity: 65535,
    pressure_offset: 65535,
    temp_coef_pressure_sensitivity: 65535,
    temp_coef_pressure_offset: 65535,
    reference_temperature: 65535,
    temp_coef_temperature: 65535,
};

fn sealed_block(cal: &CalibrationSet, factory_bits: u16) -> [u16; 8] {
    let mut prom = [
        factory_bits & 0x0FFF,
        cal.pressure_sensitivity,
        cal.pressure_offset,
        cal.temp_coef_pressure_sensitivity,
        cal.temp_coef_pressure_offset,
        cal.reference_temperature,
        cal.temp_coef_temperature,
        0,
    ];
    let mut scratch = prom;
    let crc = crc4(&mut scratch) as u16;
    prom[0] |= crc << 12;
    prom
}

fn sensor_with(cal: &CalibrationSet) -> Ms5837_02ba {
    Ms5837_02ba::new(sealed_block(cal, 0x0123)).expect("the block carries its own checksum")
}

fn be3(count: u32) -> [u8; 3] {
    [(count >> 16) as u8, (count >> 8) as u8, count as u8]
}

fn read(cal: &CalibrationSet, d1: u32, d2: u32) -> (i32, i32) {
    let data = sensor_with(cal).read(be3(d1), be3(d2));
    (data.temperature, data.pressure)
}

#[test]
fn new_accepts_block_with_matching_checksum() {
    let prom = [0x8123, 46372, 43981, 29059, 27842, 31553, 28165, 0];
    let sensor = Ms5837_02ba::new(prom).expect("checksum 8 is the checksum of this block");
    assert_eq!(sensor.coefficients(), REFERENCE);
}

#[test]
fn new_takes_words_1_to_6_in_order() {
    let cal = CalibrationSet {
        pressure_sensitivity: 1,
        pressure_offset: 2,
        temp_coef_pressure_sensitivity: 3,
        temp_coef_pressure_offset: 4,
        reference_temperature: 5,
        temp_coef_temperature: 6,
    };
    let prom = sealed_block(&cal, 0);
    assert_eq!(&prom[1..7], &[1, 2, 3, 4, 5, 6]);
    assert_eq!(Ms5837_02ba::new(prom).unwrap().coefficients(), cal);
}

#[test]
fn new_rejects_every_wrong_checksum() {
    let prom = sealed_block(&REFERENCE, 0x0123);
    let stored = prom[0] >> 12;
    for nibble in 0..16u16 {
        let mut candidate = prom;
        candidate[0] = (nibble << 12) | (prom[0] & 0x0FFF);
        let result = Ms5837_02ba::new(candidate);
        if nibble == stored {
            assert!(result.is_ok());
        } else {
            assert_eq!(result.err(), Some(ChecksumMismatch));
        }
    }
}

#[test]
fn new_rejects_corrupted_coefficient() {
    let mut prom = sealed_block(&REFERENCE, 0x0123);
    prom[3] ^= 0x0010;
    assert_eq!(Ms5837_02ba::new(prom).err(), Some(ChecksumMismatch));
}

#[test]
fn new_does_not_look_at_word_7() {
    let mut prom = sealed_block(&REFERENCE, 0x0123);
    prom[7] = 0xFFFF;
    assert_eq!(Ms5837_02ba::new(prom).unwrap().coefficients(), REFERENCE);
}

#[test]
fn new_accepts_zero_block() {
    let sensor = Ms5837_02ba::new([0u16; 8]).unwrap();
    assert_eq!(sensor.coefficients().pressure_offset, 0);
}

#[test]
fn digital_sample_is_big_endian() {
    assert_eq!(digital_sample([0x62, 0xA7, 0xA4]), 6465444);
    assert_eq!(digital_sample([0x01, 0x02, 0x03]), 0x010203);
    assert_eq!(digital_sample([0, 0, 0]), 0);
    assert_eq!(digital_sample([0xFF, 0xFF, 0xFF]), 16777215);
    assert_eq!(digital_sample([0x80, 0, 0]), 8388608);
    assert_eq!(digital_sample([0, 0, 1]), 1);
}

#[test]
fn read_reproduces_reference_example() {
    let data = sensor_with(&REFERENCE).read([98, 167, 164], [123, 65, 68]);
    assert_eq!(data, SensorData { temperature: 2000, pressure: 110002 });
}

#[test]
fn compensate_reproduces_reference_example() {
    let data = compensate(&REFERENCE, 6465444, 8077636);
    assert_eq!(data.temperature, 2000);
    assert_eq!(data.pressure, 110002);
}

#[test]
fn read_agrees_with_compensate() {
    let sensor = sensor_with(&REFERENCE);
    for (d1, d2) in [(6465444u32, 8077636u32), (4000000, 6000000), (1, 16777215), (16777215, 1)] {
        assert_eq!(sensor.read(be3(d1), be3(d2)), compensate(&REFERENCE, d1, d2));
    }
}

#[test]
fn read_applies_second_order_correction_below_20_degrees() {
    // First order: temperature -1618, pressure 101292, with a temperature
    // difference of -1077568, offset 5295901878 and sensitivity 2794402200.
    // The correction terms are 371 for the temperature, 50723455 for the
    // offset and 25770787 for the sensitivity.
    let (temperature, pressure) = read(&REFERENCE, 6465444, 7000000);
    assert_eq!(temperature, -1618 - 371);
    let sensitivity: i64 = 2794402200 - 25770787;
    let offset: i64 = 5295901878 - 50723455;
    assert_eq!(pressure as i64, (((6465444i64 * sensitivity) >> 21) - offset) >> 15);
    assert_eq!((temperature, pressure), (-1989, 100415));
    assert_ne!(pressure, 101292);
}

#[test]
fn read_corrects_just_below_20_degrees() {
    let cal = CalibrationSet { temp_coef_temperature: 1, reference_temperature: 65535, ..REFERENCE };
    // The temperature difference is -16776960 + 8388608 = -8388352: the first-order
    // temperature is 1999, and the correction for the temperature is 22526.
    let (temperature, _) = read(&cal, 6465444, 8388608);
    assert_eq!(temperature, 1999 - 22526);
}

#[test]
fn read_does_not_correct_at_exactly_20_degrees() {
    let cal = CalibrationSet { temp_coef_temperature: 1, reference_temperature: 0, ..REFERENCE };
    // The temperature difference is 8000000: the first-order temperature is
    // exactly 2000, and a correction would take 20489 off it.
    let (temperature, pressure) = read(&cal, 6465444, 8000000);
    assert_eq!(temperature, 2000);
    let offset: i64 = (43981i64 << 17) + ((27842i64 * 8000000) >> 6);
    let sensitivity: i64 = (46372i64 << 16) + ((29059i64 * 8000000) >> 7);
    assert_eq!(pressure as i64, (((6465444i64 * sensitivity) >> 21) - offset) >> 15);
}

#[test]
fn read_does_not_correct_above_20_degrees() {
    assert_eq!(read(&REFERENCE, 6465444, 8077866), (2001, 110004));
    assert_eq!(read(&REFERENCE, 16777215, 16777215), (31209, 932714));
    assert_eq!(read(&REFERENCE, 0, 16777215), (31209, -291422));
}

#[test]
fn read_switches_between_1999_and_2000() {
    assert_eq!(read(&REFERENCE, 6465444, 8077567), (1999, 110002));
    assert_eq!(read(&REFERENCE, 6465444, 8077568), (2000, 110002));
    assert_eq!(read(&REFERENCE, 6465444, 8077865), (2000, 110004));
}

#[test]
fn read_keeps_the_sign_of_a_negative_temperature_difference() {
    assert_eq!(read(&REFERENCE, 4000000, 6000000), (-6357, 1277));
    assert_eq!(read(&REFERENCE, 0, 0), (-46009, 18297));
    assert_eq!(read(&REFERENCE, 16777215, 0), (-46009, -40998));
}

#[test]
fn read_with_largest_coefficients() {
    assert_eq!(read(&LARGEST, 16777215, 0), (-219178, -7012031));
    assert_eq!(read(&LARGEST, 0, 0), (-219178, 2293655));
    assert_eq!(read(&LARGEST, 16777215, 16777215), (2001, 786443));
}

#[test]
fn read_with_zero_coefficients() {
    let zero = CalibrationSet {
        pressure_sensitivity: 0,
        pressure_offset: 0,
        temp_coef_pressure_sensitivity: 0,
        temp_coef_pressure_offset: 0,
        reference_temperature: 0,
        temp_coef_temperature: 0,
    };
    assert_eq!(read(&zero, 16777215, 16777215), (2000, 0));
    assert_eq!(read(&zero, 0, 0), (2000, 0));
}

#[test]
fn read_matches_wide_arithmetic() {
    fn reference(cal: &CalibrationSet, d1: u32, d2: u32) -> (i32, i32) {
        let dt = d2 as i128 - ((cal.reference_temperature as i128) << 8);
        let temperature = 2000 + ((dt * cal.temp_coef_temperature as i128) >> 23);
        let offset =
            ((cal.pressure_offset as i128) << 17) + ((cal.temp_coef_pressure_offset as i128 * dt) >> 6);
        let sensitivity = ((cal.pressure_sensitivity as i128) << 16)
            + ((cal.temp_coef_pressure_sensitivity as i128 * dt) >> 7);
        if temperature < 2000 {
            let t_i = (11 * dt * dt) >> 35;
            let below = temperature - 2000;
            let off_i = (31 * below * below) >> 3;
            let sens_i = (63 * below * below) >> 5;
            let pressure = (((d1 as i128 * (sensitivity - sens_i)) >> 21) - (offset - off_i)) >> 15;
            ((temperature - t_i) as i32, pressure as i32)
        } else {
            let pressure = (((d1 as i128 * sensitivity) >> 21) - offset) >> 15;
            (temperature as i32, pressure as i32)
        }
    }
    let mut seed: u32 = 0x2545F491;
    for _ in 0..2000 {
        let mut next = || {
            seed ^= seed << 13;
            seed ^= seed >> 17;
            seed ^= seed << 5;
            seed
        };
        let cal = CalibrationSet {
            pressure_sensitivity: next() as u16,
            pressure_offset: next() as u16,
            temp_coef_pressure_sensitivity: next() as u16,
            temp_coef_pressure_offset: next() as u16,
            reference_temperature: next() as u16,
            temp_coef_temperature: next() as u16,
        };
        let d1 = next() & 0x00FF_FFFF;
        let d2 = next() & 0x00FF_FFFF;
        let data = compensate(&cal, d1, d2);
        assert_eq!((data.temperature, data.pressure), reference(&cal, d1, d2));
    }
}
