//! Calibrated replay of inertial samples into an orientation estimator.
//!
//! The library decides, record by record, what the estimator is handed and
//! when a run stops. It is generic in the type of a reading, so that the
//! numeric work (offset subtraction, scaling, narrowing) is done by the
//! caller on the operands that the library pairs up axis by axis.
pub mod lines;
pub mod sample;
pub mod dispatch;
pub mod laws;
