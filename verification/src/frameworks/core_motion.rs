//! The Core Motion framework.
//!
//! Readings are handled as bit patterns of IEEE doubles. What has to be
//! computed with them is handed in as a result.
use vstd::prelude::*;

use crate::mem::encoding::{
    byte_range_of_words, le_bytes, le_bytes_value, le_value, le_value_bytes, read_le, write_le,
    SafeRead, SafeWrite,
};

verus! {

/// The double 1/60: 60Hz is the default.
pub const D_SIXTIETH: u64 = 0x3f91_1111_1111_1111;

/// The double 1/100.
pub const D_HUNDREDTH: u64 = 0x3f84_7ae1_47ae_147b;

/// The double -1.
pub const D_MINUS_ONE: u64 = 0xbff0_0000_0000_0000;

/// The sign bit of a double.
pub const D_SIGN: u64 = 0x8000_0000_0000_0000;

/// The bit pattern of infinity. Those above it are not numbers.
pub const D_INFINITY: u64 = 0x7ff0_0000_0000_0000;

/// Acceleration in G-force units along each axis.
///
/// When the device is flat on a table face-up: x=0, y=0, z=-1 (gravity pulling
/// down).
#[derive(Clone, Copy, Debug, PartialEq, Eq, Structural)]
pub struct CMAcceleration {
    pub x: u64,
    pub y: u64,
    pub z: u64,
}

/// Rotation rate in radians per second around each axis.
#[derive(Clone, Copy, Debug, PartialEq, Eq, Structural)]
pub struct CMRotationRate {
    pub x: u64,
    pub y: u64,
    pub z: u64,
}

/// A rotation.
#[derive(Clone, Copy, Debug, PartialEq, Eq, Structural)]
pub struct CMQuaternion {
    pub x: u64,
    pub y: u64,
    pub z: u64,
    pub w: u64,
}

/// A rotation as a matrix, row by row.
#[derive(Clone, Copy, Debug, PartialEq, Eq, Structural)]
pub struct CMRotationMatrix {
    pub m11: u64,
    pub m12: u64,
    pub m13: u64,
    pub m21: u64,
    pub m22: u64,
    pub m23: u64,
    pub m31: u64,
    pub m32: u64,
    pub m33: u64,
}

/// A rotation as angles.
#[derive(Clone, Copy, Debug, PartialEq, Eq, Structural)]
pub struct CMAttitude {
    pub roll: u64,
    pub pitch: u64,
    pub yaw: u64,
}

/// A 64-bit value in two registers, the lower half first.
pub open spec fn value_of_regs(low: u32, high: u32) -> u64 {
    (high * 0x1_0000_0000 + low) as u64
}

pub open spec fn low_half(value: u64) -> u32 {
    (value % 0x1_0000_0000) as u32
}

pub open spec fn high_half(value: u64) -> u32 {
    (value / 0x1_0000_0000) as u32
}

/// The values in registers, two for each.
pub open spec fn values_of_regs(regs: Seq<u32>) -> Seq<u64> {
    Seq::new(
        (regs.len() / 2) as nat,
        |i: int| value_of_regs(regs[2 * i], regs[2 * i + 1]),
    )
}

/// The registers for values, two for each.
pub open spec fn regs_of_values(values: Seq<u64>) -> Seq<u32> {
    Seq::new(
        2 * values.len(),
        |i: int|
            if i % 2 == 0 {
                low_half(values[i / 2])
            } else {
                high_half(values[i / 2])
            },
    )
}

/// Values survive being passed in registers.
pub proof fn registers_round_trip(values: Seq<u64>, regs: Seq<u32>)
    requires
        regs.len() % 2 == 0,
    ensures
        values_of_regs(regs_of_values(values)) == values,
        regs_of_values(values_of_regs(regs)) == regs,
{
    let passed = regs_of_values(values);
    assert forall|i: int| 0 <= i < values.len() implies #[trigger] values_of_regs(passed)[i]
        == values[i] by {
        assert(passed[2 * i] == low_half(values[i]));
        assert(passed[2 * i + 1] == high_half(values[i]));
    }
    assert(values_of_regs(passed) =~= values);
    assert(regs_of_values(values_of_regs(regs)) =~= regs);
}

fn value_from_regs(regs: &[u32], at: usize) -> (value: u64)
    requires
        2 * at + 1 < regs@.len(),
    ensures
        value == value_of_regs(regs@[2 * at as int], regs@[2 * at + 1]),
{
    let len: usize = regs.len();
    assert(2 * at + 1 < len);
    regs[2 * at + 1] as u64 * 0x1_0000_0000 + regs[2 * at] as u64
}

fn value_to_regs(value: u64, regs: &mut Vec<u32>)
    ensures
        final(regs)@ == old(regs)@.push(low_half(value)).push(high_half(value)),
{
    regs.push((value % 0x1_0000_0000) as u32);
    regs.push((value / 0x1_0000_0000) as u32);
}

impl CMAcceleration {
    pub const REG_COUNT: usize = 6;

    pub open spec fn values(self) -> Seq<u64> {
        seq![self.x, self.y, self.z]
    }

    pub fn from_regs(regs: &[u32]) -> (acceleration: Self)
        requires
            regs@.len() >= Self::REG_COUNT,
        ensures
            acceleration.values() == values_of_regs(regs@.take(Self::REG_COUNT as int)),
    {
        let acceleration = CMAcceleration {
            x: value_from_regs(regs, 0),
            y: value_from_regs(regs, 1),
            z: value_from_regs(regs, 2),
        };
        assert(acceleration.values() =~= values_of_regs(regs@.take(Self::REG_COUNT as int)));
        acceleration
    }

    pub fn to_regs(self) -> (regs: Vec<u32>)
        ensures
            regs@ == regs_of_values(self.values()),
    {
        let mut regs: Vec<u32> = Vec::new();
        value_to_regs(self.x, &mut regs);
        value_to_regs(self.y, &mut regs);
        value_to_regs(self.z, &mut regs);
        assert(regs@ =~= regs_of_values(self.values()));
        regs
    }
}

impl CMRotationRate {
    pub const REG_COUNT: usize = 6;

    pub open spec fn values(self) -> Seq<u64> {
        seq![self.x, self.y, self.z]
    }

    pub fn from_regs(regs: &[u32]) -> (rate: Self)
        requires
            regs@.len() >= Self::REG_COUNT,
        ensures
            rate.values() == values_of_regs(regs@.take(Self::REG_COUNT as int)),
    {
        let rate = CMRotationRate {
            x: value_from_regs(regs, 0),
            y: value_from_regs(regs, 1),
            z: value_from_regs(regs, 2),
        };
        assert(rate.values() =~= values_of_regs(regs@.take(Self::REG_COUNT as int)));
        rate
    }

    pub fn to_regs(self) -> (regs: Vec<u32>)
        ensures
            regs@ == regs_of_values(self.values()),
    {
        let mut regs: Vec<u32> = Vec::new();
        value_to_regs(self.x, &mut regs);
        value_to_regs(self.y, &mut regs);
        value_to_regs(self.z, &mut regs);
        assert(regs@ =~= regs_of_values(self.values()));
        regs
    }
}

impl CMQuaternion {
    pub const REG_COUNT: usize = 8;

    pub open spec fn values(self) -> Seq<u64> {
        seq![self.x, self.y, self.z, self.w]
    }

    pub fn from_regs(regs: &[u32]) -> (quaternion: Self)
        requires
            regs@.len() >= Self::REG_COUNT,
        ensures
            quaternion.values() == values_of_regs(regs@.take(Self::REG_COUNT as int)),
    {
        let quaternion = CMQuaternion {
            x: value_from_regs(regs, 0),
            y: value_from_regs(regs, 1),
            z: value_from_regs(regs, 2),
            w: value_from_regs(regs, 3),
        };
        assert(quaternion.values() =~= values_of_regs(regs@.take(Self::REG_COUNT as int)));
        quaternion
    }

    pub fn to_regs(self) -> (regs: Vec<u32>)
        ensures
            regs@ == regs_of_values(self.values()),
    {
        let mut regs: Vec<u32> = Vec::new();
        value_to_regs(self.x, &mut regs);
        value_to_regs(self.y, &mut regs);
        value_to_regs(self.z, &mut regs);
        value_to_regs(self.w, &mut regs);
        assert(regs@ =~= regs_of_values(self.values()));
        regs
    }
}

impl CMRotationMatrix {
    pub const REG_COUNT: usize = 18;

    pub open spec fn values(self) -> Seq<u64> {
        seq![
            self.m11,
            self.m12,
            self.m13,
            self.m21,
            self.m22,
            self.m23,
            self.m31,
            self.m32,
            self.m33,
        ]
    }

    pub fn from_regs(regs: &[u32]) -> (matrix: Self)
        requires
            regs@.len() >= Self::REG_COUNT,
        ensures
            matrix.values() == values_of_regs(regs@.take(Self::REG_COUNT as int)),
    {
        let matrix = CMRotationMatrix {
            m11: value_from_regs(regs, 0),
            m12: value_from_regs(regs, 1),
            m13: value_from_regs(regs, 2),
            m21: value_from_regs(regs, 3),
            m22: value_from_regs(regs, 4),
            m23: value_from_regs(regs, 5),
            m31: value_from_regs(regs, 6),
            m32: value_from_regs(regs, 7),
            m33: value_from_regs(regs, 8),
        };
        assert(matrix.values() =~= values_of_regs(regs@.take(Self::REG_COUNT as int)));
        matrix
    }

    pub fn to_regs(self) -> (regs: Vec<u32>)
        ensures
            regs@ == regs_of_values(self.values()),
    {
        let mut regs: Vec<u32> = Vec::new();
        value_to_regs(self.m11, &mut regs);
        value_to_regs(self.m12, &mut regs);
        value_to_regs(self.m13, &mut regs);
        value_to_regs(self.m21, &mut regs);
        value_to_regs(self.m22, &mut regs);
        value_to_regs(self.m23, &mut regs);
        value_to_regs(self.m31, &mut regs);
        value_to_regs(self.m32, &mut regs);
        value_to_regs(self.m33, &mut regs);
        assert(regs@ =~= regs_of_values(self.values()));
        regs
    }
}

/// A device that lies flat.
pub open spec fn resting() -> CMAcceleration {
    CMAcceleration { x: 0, y: 0, z: D_MINUS_ONE }
}

/// A device that doesn't turn.
pub open spec fn stationary() -> CMRotationRate {
    CMRotationRate { x: 0, y: 0, z: 0 }
}

/// Whether a double is zero or less. What is not a number is not.
pub open spec fn is_not_positive(interval: u64) -> bool {
    interval == 0 || (D_SIGN <= interval <= D_SIGN + D_INFINITY)
}

/// The interval that is used for a requested one.
pub open spec fn effective_interval(interval: u64) -> u64 {
    if is_not_positive(interval) {
        D_HUNDREDTH
    } else {
        interval
    }
}

fn usable_interval(interval: u64) -> (used: u64)
    ensures
        used == effective_interval(interval),
{
    if interval == 0 || (interval >= D_SIGN && interval <= 0xfff0_0000_0000_0000) {
        D_HUNDREDTH
    } else {
        interval
    }
}

/// A reading of the accelerometer.
#[derive(Clone, Copy, Debug, PartialEq, Eq, Structural)]
pub struct AccelerometerData {
    pub acceleration: CMAcceleration,
    pub timestamp: u64,
}

/// A reading of the gyroscope.
#[derive(Clone, Copy, Debug, PartialEq, Eq, Structural)]
pub struct GyroData {
    pub rotation_rate: CMRotationRate,
    pub timestamp: u64,
}

/// What the attitude is estimated from.
#[derive(Clone, Copy, Debug, PartialEq, Eq, Structural)]
pub struct MotionInputs {
    pub acceleration: CMAcceleration,
    pub rotation_rate: CMRotationRate,
}

/// The gateway object for the device's accelerometer, gyroscope, and
/// device-motion services.
#[derive(Clone, Copy, Debug, PartialEq, Eq, Structural)]
pub struct CMMotionManager {
    pub accelerometer_update_interval: u64,
    pub gyro_update_interval: u64,
    pub device_motion_update_interval: u64,
    pub accelerometer_active: bool,
    pub gyro_active: bool,
    pub device_motion_active: bool,
    /// Cached last accelerometer reading
    pub last_acceleration: CMAcceleration,
    /// Timestamp of last accelerometer update
    pub last_accel_timestamp: u64,
}

impl CMMotionManager {
    pub fn new() -> (manager: Self)
        ensures
            manager == (CMMotionManager {
                accelerometer_update_interval: D_SIXTIETH,
                gyro_update_interval: D_SIXTIETH,
                device_motion_update_interval: D_SIXTIETH,
                accelerometer_active: false,
                gyro_active: false,
                device_motion_active: false,
                last_acceleration: resting(),
                last_accel_timestamp: 0,
            }),
    {
        CMMotionManager {
            accelerometer_update_interval: D_SIXTIETH,
            gyro_update_interval: D_SIXTIETH,
            device_motion_update_interval: D_SIXTIETH,
            accelerometer_active: false,
            gyro_active: false,
            device_motion_active: false,
            last_acceleration: CMAcceleration { x: 0, y: 0, z: D_MINUS_ONE },
            last_accel_timestamp: 0,
        }
    }

    pub fn set_accelerometer_update_interval(&mut self, interval: u64)
        ensures
            *final(self) == (CMMotionManager {
                accelerometer_update_interval: effective_interval(interval),
                ..*old(self)
            }),
    {
        self.accelerometer_update_interval = usable_interval(interval);
    }

    pub fn set_gyro_update_interval(&mut self, interval: u64)
        ensures
            *final(self) == (CMMotionManager {
                gyro_update_interval: effective_interval(interval),
                ..*old(self)
            }),
    {
        self.gyro_update_interval = usable_interval(interval);
    }

    pub fn set_device_motion_update_interval(&mut self, interval: u64)
        ensures
            *final(self) == (CMMotionManager {
                device_motion_update_interval: effective_interval(interval),
                ..*old(self)
            }),
    {
        self.device_motion_update_interval = usable_interval(interval);
    }

    /// The most recent acceleration, while updates are on. `sensor` is what
    /// the host has measured, if it has a sensor; otherwise the device lies
    /// flat.
    pub fn accelerometer_data(
        &mut self,
        sensor: Option<CMAcceleration>,
        timestamp: u64,
    ) -> (data: Option<AccelerometerData>)
        ensures
            ({
                let acceleration = match sensor {
                    Some(acceleration) => acceleration,
                    None => resting(),
                };
                if old(self).accelerometer_active {
                    &&& data == Some(AccelerometerData { acceleration, timestamp })
                    &&& *final(self) == (CMMotionManager {
                        last_acceleration: acceleration,
                        last_accel_timestamp: timestamp,
                        ..*old(self)
                    })
                } else {
                    data is None && *final(self) == *old(self)
                }
            }),
    {
        if !self.accelerometer_active {
            return None;
        }
        let acceleration = match sensor {
            Some(acceleration) => acceleration,
            None => CMAcceleration { x: 0, y: 0, z: D_MINUS_ONE },
        };
        self.last_acceleration = acceleration;
        self.last_accel_timestamp = timestamp;
        Some(AccelerometerData { acceleration, timestamp })
    }

    /// The most recent rotation rate, while updates are on. Without a sensor,
    /// the device doesn't turn.
    pub fn gyro_data(
        &self,
        sensor: Option<CMRotationRate>,
        timestamp: u64,
    ) -> (data: Option<GyroData>)
        ensures
            data == if self.gyro_active {
                Some(
                    GyroData {
                        rotation_rate: match sensor {
                            Some(rate) => rate,
                            None => stationary(),
                        },
                        timestamp,
                    },
                )
            } else {
                None
            },
    {
        if !self.gyro_active {
            return None;
        }
        let rotation_rate = match sensor {
            Some(rate) => rate,
            None => CMRotationRate { x: 0, y: 0, z: 0 },
        };
        Some(GyroData { rotation_rate, timestamp })
    }

    /// What the attitude of the device is to be estimated from, while updates
    /// are on.
    pub fn device_motion_inputs(
        &self,
        accelerometer: Option<CMAcceleration>,
        gyroscope: Option<CMRotationRate>,
    ) -> (inputs: Option<MotionInputs>)
        ensures
            inputs == if self.device_motion_active {
                Some(
                    MotionInputs {
                        acceleration: match accelerometer {
                            Some(acceleration) => acceleration,
                            None => resting(),
                        },
                        rotation_rate: match gyroscope {
                            Some(rate) => rate,
                            None => stationary(),
                        },
                    },
                )
            } else {
                None
            },
    {
        if !self.device_motion_active {
            return None;
        }
        let acceleration = match accelerometer {
            Some(acceleration) => acceleration,
            None => CMAcceleration { x: 0, y: 0, z: D_MINUS_ONE },
        };
        let rotation_rate = match gyroscope {
            Some(rate) => rate,
            None => CMRotationRate { x: 0, y: 0, z: 0 },
        };
        Some(MotionInputs { acceleration, rotation_rate })
    }
}

/// The bytes of doubles, one after the other.
pub open spec fn bytes_of_values(values: Seq<u64>) -> Seq<u8> {
    Seq::new(8 * values.len(), |i: int| le_bytes(values[i / 8] as nat, 8)[i % 8])
}

/// One of several doubles in a row of bytes.
pub open spec fn value_of_bytes(bytes: Seq<u8>, at: int) -> u64 {
    le_value(bytes.subrange(8 * at, 8 * at + 8)) as u64
}

proof fn lemma_value_of_bytes(values: Seq<u64>, at: int)
    requires
        0 <= at < values.len(),
    ensures
        value_of_bytes(bytes_of_values(values), at) == values[at],
{
    let bytes = bytes_of_values(values);
    let own = le_bytes(values[at] as nat, 8);
    le_bytes_value(values[at] as nat, 8);
    byte_range_of_words();
    assert forall|k: int| 0 <= k < 8 implies #[trigger] bytes.subrange(8 * at, 8 * at + 8)[k]
        == own[k] by {
        assert((8 * at + k) / 8 == at);
        assert((8 * at + k) % 8 == k);
    }
    assert(bytes.subrange(8 * at, 8 * at + 8) =~= own);
}

fn read_value(bytes: &[u8], at: usize) -> (value: u64)
    requires
        8 * at + 8 <= bytes@.len(),
    ensures
        value == value_of_bytes(bytes@, at as int),
{
    let len: usize = bytes.len();
    assert(8 * at + 8 <= len);
    let own = vstd::slice::slice_subrange(bytes, 8 * at, 8 * at + 8);
    proof {
        le_value_bytes(own@);
        byte_range_of_words();
    }
    read_le(own)
}

fn push_value(bytes: &mut Vec<u8>, value: u64, Ghost(before): Ghost<Seq<u64>>)
    requires
        old(bytes)@ == bytes_of_values(before),
    ensures
        final(bytes)@ == bytes_of_values(before.push(value)),
{
    let mut own = write_le(value, 8);
    proof {
        le_bytes_value(value as nat, 8);
    }
    bytes.append(&mut own);
    proof {
        let after = before.push(value);
        assert forall|i: int| 0 <= i < bytes@.len() implies #[trigger] bytes@[i]
            == bytes_of_values(after)[i] by {
            if i < 8 * before.len() {
                assert(after[i / 8] == before[i / 8]);
            } else {
                assert(i / 8 == before.len());
                assert(i % 8 == i - 8 * before.len());
            }
        }
        assert(bytes@ =~= bytes_of_values(after));
    }
}

impl SafeWrite for CMAcceleration {
    open spec fn byte_count() -> nat {
        24
    }

    open spec fn encode(self) -> Seq<u8> {
        bytes_of_values(self.values())
    }

    proof fn lemma_encode(self) {
    }

    fn guest_byte_count() -> (count: u32) {
        24
    }

    fn to_guest_bytes(&self) -> (bytes: Vec<u8>) {
        let mut bytes: Vec<u8> = Vec::new();
        assert(bytes@ =~= bytes_of_values(self.values().take(0)));
        push_value(&mut bytes, self.x, Ghost(self.values().take(0)));
        assert(self.values().take(0).push(self.x) =~= self.values().take(1));
        push_value(&mut bytes, self.y, Ghost(self.values().take(1)));
        assert(self.values().take(1).push(self.y) =~= self.values().take(2));
        push_value(&mut bytes, self.z, Ghost(self.values().take(2)));
        assert(self.values().take(2).push(self.z) =~= self.values().take(3));
        assert(self.values().take(3) =~= self.values());
        bytes
    }
}

impl SafeRead for CMAcceleration {
    open spec fn decode(bytes: Seq<u8>) -> Self {
        CMAcceleration {
            x: value_of_bytes(bytes, 0),
            y: value_of_bytes(bytes, 1),
            z: value_of_bytes(bytes, 2),
        }
    }

    proof fn lemma_decode(self) {
        lemma_value_of_bytes(self.values(), 0);
        lemma_value_of_bytes(self.values(), 1);
        lemma_value_of_bytes(self.values(), 2);
    }

    fn from_guest_bytes(bytes: &[u8]) -> (value: Self) {
        CMAcceleration {
            x: read_value(bytes, 0),
            y: read_value(bytes, 1),
            z: read_value(bytes, 2),
        }
    }
}

impl SafeWrite for CMRotationRate {
    open spec fn byte_count() -> nat {
        24
    }

    open spec fn encode(self) -> Seq<u8> {
        bytes_of_values(self.values())
    }

    proof fn lemma_encode(self) {
    }

    fn guest_byte_count() -> (count: u32) {
        24
    }

    fn to_guest_bytes(&self) -> (bytes: Vec<u8>) {
        let mut bytes: Vec<u8> = Vec::new();
        assert(bytes@ =~= bytes_of_values(self.values().take(0)));
        push_value(&mut bytes, self.x, Ghost(self.values().take(0)));
        assert(self.values().take(0).push(self.x) =~= self.values().take(1));
        push_value(&mut bytes, self.y, Ghost(self.values().take(1)));
        assert(self.values().take(1).push(self.y) =~= self.values().take(2));
        push_value(&mut bytes, self.z, Ghost(self.values().take(2)));
        assert(self.values().take(2).push(self.z) =~= self.values().take(3));
        assert(self.values().take(3) =~= self.values());
        bytes
    }
}

impl SafeRead for CMRotationRate {
    open spec fn decode(bytes: Seq<u8>) -> Self {
        CMRotationRate {
            x: value_of_bytes(bytes, 0),
            y: value_of_bytes(bytes, 1),
            z: value_of_bytes(bytes, 2),
        }
    }

    proof fn lemma_decode(self) {
        lemma_value_of_bytes(self.values(), 0);
        lemma_value_of_bytes(self.values(), 1);
        lemma_value_of_bytes(self.values(), 2);
    }

    fn from_guest_bytes(bytes: &[u8]) -> (value: Self) {
        CMRotationRate {
            x: read_value(bytes, 0),
            y: read_value(bytes, 1),
            z: read_value(bytes, 2),
        }
    }
}

impl SafeWrite for CMQuaternion {
    open spec fn byte_count() -> nat {
        32
    }

    open spec fn encode(self) -> Seq<u8> {
        bytes_of_values(self.values())
    }

    proof fn lemma_encode(self) {
    }

    fn guest_byte_count() -> (count: u32) {
        32
    }

    fn to_guest_bytes(&self) -> (bytes: Vec<u8>) {
        let mut bytes: Vec<u8> = Vec::new();
        assert(bytes@ =~= bytes_of_values(self.values().take(0)));
        push_value(&mut bytes, self.x, Ghost(self.values().take(0)));
        assert(self.values().take(0).push(self.x) =~= self.values().take(1));
        push_value(&mut bytes, self.y, Ghost(self.values().take(1)));
        assert(self.values().take(1).push(self.y) =~= self.values().take(2));
        push_value(&mut bytes, self.z, Ghost(self.values().take(2)));
        assert(self.values().take(2).push(self.z) =~= self.values().take(3));
        push_value(&mut bytes, self.w, Ghost(self.values().take(3)));
        assert(self.values().take(3).push(self.w) =~= self.values().take(4));
        assert(self.values().take(4) =~= self.values());
        bytes
    }
}

impl SafeRead for CMQuaternion {
    open spec fn decode(bytes: Seq<u8>) -> Self {
        CMQuaternion {
            x: value_of_bytes(bytes, 0),
            y: value_of_bytes(bytes, 1),
            z: value_of_bytes(bytes, 2),
            w: value_of_bytes(bytes, 3),
        }
    }

    proof fn lemma_decode(self) {
        lemma_value_of_bytes(self.values(), 0);
        lemma_value_of_bytes(self.values(), 1);
        lemma_value_of_bytes(self.values(), 2);
        lemma_value_of_bytes(self.values(), 3);
    }

    fn from_guest_bytes(bytes: &[u8]) -> (value: Self) {
        CMQuaternion {
            x: read_value(bytes, 0),
            y: read_value(bytes, 1),
            z: read_value(bytes, 2),
            w: read_value(bytes, 3),
        }
    }
}

impl SafeWrite for CMRotationMatrix {
    open spec fn byte_count() -> nat {
        72
    }

    open spec fn encode(self) -> Seq<u8> {
        bytes_of_values(self.values())
    }

    proof fn lemma_encode(self) {
    }

    fn guest_byte_count() -> (count: u32) {
        72
    }

    fn to_guest_bytes(&self) -> (bytes: Vec<u8>) {
        let mut bytes: Vec<u8> = Vec::new();
        assert(bytes@ =~= bytes_of_values(self.values().take(0)));
        push_value(&mut bytes, self.m11, Ghost(self.values().take(0)));
        assert(self.values().take(0).push(self.m11) =~= self.values().take(1));
        push_value(&mut bytes, self.m12, Ghost(self.values().take(1)));
        assert(self.values().take(1).push(self.m12) =~= self.values().take(2));
        push_value(&mut bytes, self.m13, Ghost(self.values().take(2)));
        assert(self.values().take(2).push(self.m13) =~= self.values().take(3));
        push_value(&mut bytes, self.m21, Ghost(self.values().take(3)));
        assert(self.values().take(3).push(self.m21) =~= self.values().take(4));
        push_value(&mut bytes, self.m22, Ghost(self.values().take(4)));
        assert(self.values().take(4).push(self.m22) =~= self.values().take(5));
        push_value(&mut bytes, self.m23, Ghost(self.values().take(5)));
        assert(self.values().take(5).push(self.m23) =~= self.values().take(6));
        push_value(&mut bytes, self.m31, Ghost(self.values().take(6)));
        assert(self.values().take(6).push(self.m31) =~= self.values().take(7));
        push_value(&mut bytes, self.m32, Ghost(self.values().take(7)));
        assert(self.values().take(7).push(self.m32) =~= self.values().take(8));
        push_value(&mut bytes, self.m33, Ghost(self.values().take(8)));
        assert(self.values().take(8).push(self.m33) =~= self.values().take(9));
        assert(self.values().take(9) =~= self.values());
        bytes
    }
}

impl SafeRead for CMRotationMatrix {
    open spec fn decode(bytes: Seq<u8>) -> Self {
        CMRotationMatrix {
            m11: value_of_bytes(bytes, 0),
            m12: value_of_bytes(bytes, 1),
            m13: value_of_bytes(bytes, 2),
            m21: value_of_bytes(bytes, 3),
            m22: value_of_bytes(bytes, 4),
            m23: value_of_bytes(bytes, 5),
            m31: value_of_bytes(bytes, 6),
            m32: value_of_bytes(bytes, 7),
            m33: value_of_bytes(bytes, 8),
        }
    }

    proof fn lemma_decode(self) {
        lemma_value_of_bytes(self.values(), 0);
        lemma_value_of_bytes(self.values(), 1);
        lemma_value_of_bytes(self.values(), 2);
        lemma_value_of_bytes(self.values(), 3);
        lemma_value_of_bytes(self.values(), 4);
        lemma_value_of_bytes(self.values(), 5);
        lemma_value_of_bytes(self.values(), 6);
        lemma_value_of_bytes(self.values(), 7);
        lemma_value_of_bytes(self.values(), 8);
    }

    fn from_guest_bytes(bytes: &[u8]) -> (value: Self) {
        CMRotationMatrix {
            m11: read_value(bytes, 0),
            m12: read_value(bytes, 1),
            m13: read_value(bytes, 2),
            m21: read_value(bytes, 3),
            m22: read_value(bytes, 4),
            m23: read_value(bytes, 5),
            m31: read_value(bytes, 6),
            m32: read_value(bytes, 7),
            m33: read_value(bytes, 8),
        }
    }
}

} // verus!
