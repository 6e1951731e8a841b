//! Driver core for the MS5837-02BA pressure and temperature sensor.
//!
//! The sensor sits on a two-wire bus. This crate holds everything the driver
//! decides and computes, and performs no transfer itself:
//!
//! - [`checksum`] is the CRC-4 that guards the calibration memory;
//! - [`sensor`] is the calibrated sensor, built from a calibration block that
//!   passed the check, and the reading it computes from two raw counts;
//! - [`compensation`] holds the fixed-point formulas behind that reading;
//! - [`bus`] names the transactions that the driver asks for;
//! - [`startup`] and [`conversion`] sequence those transactions: the caller
//!   performs the one that is pending and reports how it ended.

pub mod bus;
pub mod checksum;
pub mod compensation;
pub mod conversion;
pub mod sensor;
pub mod startup;

pub use checksum::crc4;
pub use compensation::{CalibrationSet, SensorData};
pub use sensor::{ChecksumMismatch, Ms5837_02ba};
