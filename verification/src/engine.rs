use vstd::prelude::*;

use crate::fixed::clamp_spec;
use crate::geometry::Vec2Fx;
use vstd::string::StringSliceAdditionalSpecFns;

verus! {

/// Power values handed to or written by the control script are always
/// clamped into `[-SCALE, SCALE]`, the fixed-point image of `[-1, 1]`.
pub const POWER_LIMIT: i64 = 1000;

/// One sensor as the control script sees it: the mounting offset, the
/// mounting angle in thousandths of a degree, and the last reading.
#[derive(Clone, Copy, Debug, PartialEq, Eq, Structural)]
pub struct SensorInfo {
    pub position_offset: Vec2Fx,
    pub angle: i64,
    pub value: i64,
}

/// The sensor table exposed to the control script, reachable both by
/// name and by position.
#[derive(Clone, Debug)]
pub struct Sensors(pub Vec<(String, SensorInfo)>);

pub open spec fn str_bytes_eq(a: Seq<char>, b: Seq<char>) -> bool {
    vstd::utf8::encode_utf8(a) == vstd::utf8::encode_utf8(b)
}

fn bytes_eq(a: &Vec<u8>, b: &Vec<u8>) -> (r: bool)
    ensures
        r == (a@ == b@),
{
    if a.len() != b.len() {
        proof {
            assert(a@ != b@);
        }
        return false;
    }
    let mut i: usize = 0;
    while i < a.len()
        invariant
            i <= a@.len(),
            a@.len() == b@.len(),
            forall|k: int| 0 <= k < i ==> a@[k] == b@[k],
        decreases a@.len() - i,
    {
        if *a.get(i).unwrap() != *b.get(i).unwrap() {
            return false;
        }
        i += 1;
    }
    proof {
        assert(a@ =~= b@);
    }
    true
}

fn str_eq(a: &str, b: &str) -> (r: bool)
    ensures
        r == str_bytes_eq(a@, b@),
{
    let va = a.as_bytes_vec();
    let vb = b.as_bytes_vec();
    bytes_eq(&va, &vb)
}

impl Sensors {
    /// Look a sensor up by its configured name; the first entry whose
    /// name has the same character content is returned.
    pub fn get_sensors(&self, index: &str) -> (r: Option<SensorInfo>)
        ensures
            match r {
                Some(info) => exists|i: int|
                    0 <= i < self.0@.len() && str_bytes_eq((#[trigger] self.0@[i]).0@, index@)
                        && info == self.0@[i].1 && forall|j: int|
                        0 <= j < i ==> !str_bytes_eq((#[trigger] self.0@[j]).0@, index@),
                None => forall|j: int|
                    0 <= j < self.0@.len() ==> !str_bytes_eq((#[trigger] self.0@[j]).0@, index@),
            },
    {
        let mut i: usize = 0;
        while i < self.0.len()
            invariant
                i <= self.0@.len(),
                forall|j: int| 0 <= j < i ==> !str_bytes_eq((#[trigger] self.0@[j]).0@, index@),
            decreases self.0@.len() - i,
        {
            let entry = self.0.get(i).unwrap();
            if str_eq(entry.0.as_str(), index) {
                return Some(entry.1);
            }
            i += 1;
        }
        None
    }

    /// Look a sensor up by its position in the table.
    pub fn get_index(&self, i: usize) -> (r: Option<SensorInfo>)
        ensures
            match r {
                Some(info) => i < self.0@.len() && info == self.0@[i as int].1,
                None => i >= self.0@.len(),
            },
    {
        if i < self.0.len() {
            Some(self.0.get(i).unwrap().1)
        } else {
            None
        }
    }

    pub fn len(&self) -> (r: usize)
        ensures
            r == self.0@.len(),
    {
        self.0.len()
    }
}

/// The per-tick snapshot bound into the control script: read-only
/// physical parameters, encoder counts and sensor readings, and the two
/// power fields whose writes are clamped.
#[derive(Clone, Debug)]
pub struct MouseData {
    pub wheel_base: i64,
    pub tire_friction: i64,
    pub mass: i64,
    pub crashed: bool,
    pub delta_time: i64,
    pub width: i64,
    pub length: i64,
    pub sensors: Sensors,
    pub left_encoder: u64,
    pub right_encoder: u64,
    pub left_power: i64,
    pub right_power: i64,
}

impl MouseData {
    /// Every write of the left power stores its clamp into `[-1, 1]`.
    pub fn set_left_power(&mut self, power: i64)
        ensures
            final(self).left_power == clamp_spec(
                power as int,
                -POWER_LIMIT as int,
                POWER_LIMIT as int,
            ),
            final(self).right_power == old(self).right_power,
            final(self).sensors.0@ == old(self).sensors.0@,
            final(self).wheel_base == old(self).wheel_base,
            final(self).tire_friction == old(self).tire_friction,
            final(self).mass == old(self).mass,
            final(self).crashed == old(self).crashed,
            final(self).delta_time == old(self).delta_time,
            final(self).width == old(self).width,
            final(self).length == old(self).length,
            final(self).left_encoder == old(self).left_encoder,
            final(self).right_encoder == old(self).right_encoder,
    {
        self.left_power = crate::fixed::clamp_i64(power, -POWER_LIMIT, POWER_LIMIT);
    }

    pub fn get_left_power(&self) -> (r: i64)
        ensures
            r == self.left_power,
    {
        self.left_power
    }

    /// Every write of the right power stores its clamp into `[-1, 1]`.
    pub fn set_right_power(&mut self, power: i64)
        ensures
            final(self).right_power == clamp_spec(
                power as int,
                -POWER_LIMIT as int,
                POWER_LIMIT as int,
            ),
            final(self).left_power == old(self).left_power,
            final(self).sensors.0@ == old(self).sensors.0@,
            final(self).wheel_base == old(self).wheel_base,
            final(self).tire_friction == old(self).tire_friction,
            final(self).mass == old(self).mass,
            final(self).crashed == old(self).crashed,
            final(self).delta_time == old(self).delta_time,
            final(self).width == old(self).width,
            final(self).length == old(self).length,
            final(self).left_encoder == old(self).left_encoder,
            final(self).right_encoder == old(self).right_encoder,
    {
        self.right_power = crate::fixed::clamp_i64(power, -POWER_LIMIT, POWER_LIMIT);
    }

    pub fn get_right_power(&self) -> (r: i64)
        ensures
            r == self.right_power,
    {
        self.right_power
    }
}

} // verus!
