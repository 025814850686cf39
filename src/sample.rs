//! Samples as they are recorded, and the updates that the estimator receives.
use vstd::prelude::*;

verus! {

/// Three values, one for each sensor axis.
#[derive(Clone, Copy, Debug, PartialEq)]
pub struct Triple<T> {
    pub x: T,
    pub y: T,
    pub z: T,
}

/// One decoded record: the tag decides which fields it carries.
#[derive(Clone, Copy, Debug, PartialEq)]
pub enum RawSample<T> {
    /// Accelerometer vector, as recorded.
    Accel { x: T, y: T, z: T },
    /// Angular velocity with the zero-rate offset that travels with it.
    Gyro { x: T, y: T, z: T, ox: T, oy: T, oz: T },
}

/// The operands of one axis of the gyroscope correction
/// `(raw - offset) * scale`.
#[derive(Clone, Copy, Debug, PartialEq)]
pub struct Correction<T> {
    pub raw: T,
    pub offset: T,
    pub scale: T,
}

/// What the estimator is handed for one record.
#[derive(Clone, Copy, Debug, PartialEq)]
pub enum Update<T> {
    /// Accelerometer update: the recorded vector, unchanged.
    Accel(Triple<T>),
    /// Gyroscope update: per axis, the reading, its offset and the scale
    /// of that same axis.
    Gyro(Triple<Correction<T>>),
}

/// The update that a record gives under the per-axis gyroscope scale.
pub open spec fn update_of<T>(s: RawSample<T>, scale: Triple<T>) -> Update<T> {
    match s {
        RawSample::Accel { x, y, z } => Update::Accel(Triple { x, y, z }),
        RawSample::Gyro { x, y, z, ox, oy, oz } => Update::Gyro(
            Triple {
                x: Correction { raw: x, offset: ox, scale: scale.x },
                y: Correction { raw: y, offset: oy, scale: scale.y },
                z: Correction { raw: z, offset: oz, scale: scale.z },
            },
        ),
    }
}

/// Builds the update for one record: accelerometer readings pass through,
/// gyroscope readings are paired axis by axis with their offset and scale.
pub fn update_for<T: Copy>(s: &RawSample<T>, scale: &Triple<T>) -> (u: Update<T>)
    ensures
        u == update_of(*s, *scale),
{
    match s {
        RawSample::Accel { x, y, z } => Update::Accel(Triple { x: *x, y: *y, z: *z }),
        RawSample::Gyro { x, y, z, ox, oy, oz } => Update::Gyro(
            Triple {
                x: Correction { raw: *x, offset: *ox, scale: scale.x },
                y: Correction { raw: *y, offset: *oy, scale: scale.y },
                z: Correction { raw: *z, offset: *oz, scale: scale.z },
            },
        ),
    }
}

} // verus!
