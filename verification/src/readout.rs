//! From the readings of a frame to the state of one arm.
//!
//! A reading's name says which channel of the arm it belongs to. Of several
//! readings for one channel the last one counts.

use crate::codes::{JOINTS, SAFETY_ESTOP, SAFETY_FAULT, SAFETY_NORMAL};
use crate::model::{HealthState, ReadingView};
use crate::number::Real64;
use crate::text::{characters, finishes_with, occurs_at, same, stands_at};
use vstd::prelude::*;

verus! {

pub open spec fn is_digit(c: char) -> bool {
    '0' <= c && c <= '9'
}

/// The first position from `at` on that holds no digit.
pub open spec fn digits_end(text: Seq<char>, at: int) -> int
    decreases text.len() - at,
{
    if 0 <= at < text.len() && is_digit(text[at]) {
        digits_end(text, at + 1)
    } else {
        at
    }
}

/// The number that a sequence of digits writes.
pub open spec fn decimal_value(digits: Seq<char>) -> int
    decreases digits.len(),
{
    if digits.len() == 0 {
        0
    } else {
        decimal_value(digits.drop_last()) * 10 + (digits.last() as int - '0' as int)
    }
}

/// The joint, counted from 0, whose number, counted from 1, follows
/// `body/arm/joint_` at the front of a name.
pub open spec fn joint_index(name: Seq<char>) -> Option<usize> {
    let start = "body/arm/joint_"@.len() as int;
    let end = digits_end(name, start);
    let number = decimal_value(name.subrange(start, end));
    if occurs_at(name, "body/arm/joint_"@, 0) && end > start && 1 <= number <= JOINTS {
        Some((number - 1) as usize)
    } else {
        None
    }
}

/// What a reading is about.
#[derive(Clone, Copy, Debug, PartialEq, Eq, Structural)]
pub enum Channel {
    MotorTemp(usize),
    DriverTemp(usize),
    Power(usize),
    JointError(usize),
    JointEnabled(usize),
    JointCommunication(usize),
    ArmState,
    ArmError,
    GripperError,
    GripperEnabled,
    GripperHomed,
    GripperOpening,
}

/// Does `text` end with `suffix`?
pub open spec fn ends_in(text: Seq<char>, suffix: Seq<char>) -> bool {
    occurs_at(text, suffix, text.len() - suffix.len())
}

/// The channel that a name stands for, if it stands for any.
pub open spec fn channel(name: Seq<char>) -> Option<Channel> {
    match joint_index(name) {
        Some(joint) => if ends_in(name, "/motor_temp"@) {
            Some(Channel::MotorTemp(joint))
        } else if ends_in(name, "/driver_temp"@) {
            Some(Channel::DriverTemp(joint))
        } else if ends_in(name, "/voltage"@) {
            Some(Channel::Power(joint))
        } else if ends_in(name, "/error"@) {
            Some(Channel::JointError(joint))
        } else if ends_in(name, "/enabled"@) {
            Some(Channel::JointEnabled(joint))
        } else if ends_in(name, "/communication_ok"@) {
            Some(Channel::JointCommunication(joint))
        } else {
            None
        },
        None => if name == "body/arm/state"@ {
            Some(Channel::ArmState)
        } else if name == "body/arm/error"@ {
            Some(Channel::ArmError)
        } else if name == "body/arm/gripper/error"@ {
            Some(Channel::GripperError)
        } else if name == "body/arm/gripper/enabled"@ {
            Some(Channel::GripperEnabled)
        } else if name == "body/arm/gripper/homed"@ {
            Some(Channel::GripperHomed)
        } else if name == "body/arm/gripper/opening_m"@ {
            Some(Channel::GripperOpening)
        } else {
            None
        },
    }
}

/// The last reading for a channel, if there is one.
pub open spec fn latest(readings: Seq<ReadingView>, wanted: Channel) -> Option<ReadingView>
    decreases readings.len(),
{
    if readings.len() == 0 {
        None
    } else if channel(readings.last().name) == Some(wanted) {
        Some(readings.last())
    } else {
        latest(readings.drop_last(), wanted)
    }
}

/// What the readings say of one joint. A measurement that was not taken is
/// absent.
#[derive(Clone, Copy, Debug, PartialEq, Eq)]
pub struct JointReadout {
    pub motor_temp: Option<Real64>,
    pub driver_temp: Option<Real64>,
    pub voltage: Option<Real64>,
    pub current: Option<Real64>,
    pub error: u32,
    pub enabled: bool,
    pub communication: bool,
}

/// What the readings say of an arm.
#[derive(Debug, PartialEq, Eq)]
pub struct ArmReadout {
    pub joints: Vec<JointReadout>,
    pub arm_state: u32,
    pub arm_error: u32,
    pub gripper_error: u32,
    pub gripper_enabled: bool,
    pub gripper_homed: bool,
    pub gripper_opening_m: Real64,
}

/// The view of [`ArmReadout`].
#[verifier::ext_equal]
pub struct ArmReadoutView {
    pub joints: Seq<JointReadout>,
    pub arm_state: u32,
    pub arm_error: u32,
    pub gripper_error: u32,
    pub gripper_enabled: bool,
    pub gripper_homed: bool,
    pub gripper_opening_m: Real64,
}

impl View for ArmReadout {
    type V = ArmReadoutView;

    open spec fn view(&self) -> ArmReadoutView {
        ArmReadoutView {
            joints: self.joints@,
            arm_state: self.arm_state,
            arm_error: self.arm_error,
            gripper_error: self.gripper_error,
            gripper_enabled: self.gripper_enabled,
            gripper_homed: self.gripper_homed,
            gripper_opening_m: self.gripper_opening_m,
        }
    }
}

/// The code that a reading carries, or 0 without one.
pub open spec fn code_of(reading: Option<ReadingView>) -> u32 {
    match reading {
        Some(r) => r.current_a.spec_to_u32(),
        None => 0,
    }
}

/// Is the reading there, and on?
pub open spec fn on(reading: Option<ReadingView>) -> bool {
    reading matches Some(r) && r.current_a.spec_at_least_half()
}

/// The safety state that an arm's own state code stands for.
pub open spec fn safety_of_code(code: u32) -> u32 {
    if code == 0 {
        SAFETY_NORMAL
    } else if code == 2 {
        SAFETY_ESTOP
    } else {
        SAFETY_FAULT
    }
}

/// What the readings say of joint `joint`.
pub open spec fn joint_readout(readings: Seq<ReadingView>, joint: usize) -> JointReadout {
    JointReadout {
        motor_temp: match latest(readings, Channel::MotorTemp(joint)) {
            Some(r) => Some(r.temp_c.widened()),
            None => None,
        },
        driver_temp: match latest(readings, Channel::DriverTemp(joint)) {
            Some(r) => Some(r.temp_c.widened()),
            None => None,
        },
        voltage: match latest(readings, Channel::Power(joint)) {
            Some(r) => Some(r.voltage.widened()),
            None => None,
        },
        current: match latest(readings, Channel::Power(joint)) {
            Some(r) => Some(r.current_a.widened()),
            None => None,
        },
        error: code_of(latest(readings, Channel::JointError(joint))),
        enabled: on(latest(readings, Channel::JointEnabled(joint))),
        communication: on(latest(readings, Channel::JointCommunication(joint))),
    }
}

/// What the readings say of the arm.
pub open spec fn readout(readings: Seq<ReadingView>) -> ArmReadoutView {
    ArmReadoutView {
        joints: Seq::new(JOINTS as nat, |j: int| joint_readout(readings, j as usize)),
        arm_state: match latest(readings, Channel::ArmState) {
            Some(r) => safety_of_code(r.current_a.spec_to_u32()),
            None => SAFETY_NORMAL,
        },
        arm_error: code_of(latest(readings, Channel::ArmError)),
        gripper_error: code_of(latest(readings, Channel::GripperError)),
        gripper_enabled: on(latest(readings, Channel::GripperEnabled)),
        gripper_homed: on(latest(readings, Channel::GripperHomed)),
        gripper_opening_m: match latest(readings, Channel::GripperOpening) {
            Some(r) => r.current_a.widened(),
            None => Real64 { bits: 0 },
        },
    }
}

/// The joint, counted from 0, that a name like `body/arm/joint_1/motor_temp`
/// is about.
pub fn parse_joint_index(name: &str) -> (r: Option<usize>)
    ensures
        r == joint_index(name@),
{
    let text = characters(name);
    let prefix = characters("body/arm/joint_");
    if !stands_at(&text, &prefix, 0) {
        return None;
    }
    let start: usize = prefix.len();
    let end: usize = text.len();
    let mut at: usize = start;
    let mut number: usize = 0;
    assert(name@.subrange(start as int, start as int) =~= Seq::<char>::empty());
    while at < end && '0' <= text[at] && text[at] <= '9'
        invariant
            text@ == name@,
            end == name@.len(),
            start <= at <= end,
            start < at || number == 0,
            digits_end(name@, start as int) == digits_end(name@, at as int),
            number <= JOINTS ==> number == decimal_value(name@.subrange(start as int, at as int)),
            number > JOINTS ==> decimal_value(name@.subrange(start as int, at as int)) > JOINTS,
        decreases end - at,
    {
        proof {
            let wider = name@.subrange(start as int, at + 1);
            assert(wider.drop_last() =~= name@.subrange(start as int, at as int));
            assert(wider.last() == text@[at as int]);
        }
        if number <= JOINTS {
            number = number * 10 + (text[at] as u32 - '0' as u32) as usize;
        }
        at = at + 1;
    }
    if at == start || number < 1 || number > JOINTS {
        None
    } else {
        Some(number - 1)
    }
}

/// The channel that a name stands for, if it stands for any.
pub fn channel_of(name: &str) -> (r: Option<Channel>)
    ensures
        r == channel(name@),
{
    match parse_joint_index(name) {
        Some(joint) => {
            if finishes_with(name, "/motor_temp") {
                Some(Channel::MotorTemp(joint))
            } else if finishes_with(name, "/driver_temp") {
                Some(Channel::DriverTemp(joint))
            } else if finishes_with(name, "/voltage") {
                Some(Channel::Power(joint))
            } else if finishes_with(name, "/error") {
                Some(Channel::JointError(joint))
            } else if finishes_with(name, "/enabled") {
                Some(Channel::JointEnabled(joint))
            } else if finishes_with(name, "/communication_ok") {
                Some(Channel::JointCommunication(joint))
            } else {
                None
            }
        },
        None => {
            if same(name, "body/arm/state") {
                Some(Channel::ArmState)
            } else if same(name, "body/arm/error") {
                Some(Channel::ArmError)
            } else if same(name, "body/arm/gripper/error") {
                Some(Channel::GripperError)
            } else if same(name, "body/arm/gripper/enabled") {
                Some(Channel::GripperEnabled)
            } else if same(name, "body/arm/gripper/homed") {
                Some(Channel::GripperHomed)
            } else if same(name, "body/arm/gripper/opening_m") {
                Some(Channel::GripperOpening)
            } else {
                None
            }
        },
    }
}

impl ArmReadout {
    /// An arm of which nothing has been read.
    pub fn blank() -> (r: Self)
        ensures
            r@ == readout(Seq::empty()),
    {
        let mut joints: Vec<JointReadout> = Vec::new();
        while joints.len() < JOINTS
            invariant
                joints@.len() <= JOINTS,
                forall|j: int|
                    0 <= j < joints@.len() ==> joints@[j] == joint_readout(
                        Seq::empty(),
                        j as usize,
                    ),
            decreases JOINTS - joints@.len(),
        {
            joints.push(
                JointReadout {
                    motor_temp: None,
                    driver_temp: None,
                    voltage: None,
                    current: None,
                    error: 0,
                    enabled: false,
                    communication: false,
                },
            );
        }
        ArmReadout {
            joints,
            arm_state: SAFETY_NORMAL,
            arm_error: 0,
            gripper_error: 0,
            gripper_enabled: false,
            gripper_homed: false,
            gripper_opening_m: Real64 { bits: 0 },
        }
    }
}

/// One more reading is the latest of its own channel and leaves the latest of
/// every other channel as it was.
pub proof fn law_later_readings_win(readings: Seq<ReadingView>, reading: ReadingView, c: Channel)
    ensures
        channel(reading.name) == Some(c) ==> latest(readings.push(reading), c) == Some(reading),
        channel(reading.name) != Some(c) ==> latest(readings.push(reading), c) == latest(
            readings,
            c,
        ),
{
    assert(readings.push(reading).drop_last() =~= readings);
}

/// Reads the state of an arm out of a frame.
pub fn read_arm(state: &HealthState) -> (arm: ArmReadout)
    ensures
        arm@ == readout(state@),
{
    let mut arm = ArmReadout::blank();
    let n: usize = state.readings.len();
    let mut i: usize = 0;
    assert(state@.take(0) =~= Seq::empty());
    while i < n
        invariant
            n == state.readings@.len(),
            n == state@.len(),
            i <= n,
            arm@ == readout(state@.take(i as int)),
        decreases n - i,
    {
        let reading = &state.readings[i];
        let ghost seen = state@.take(i as int);
        proof {
            assert(state@.take(i + 1) =~= seen.push(reading@));
            assert forall|c: Channel|
                #![trigger latest(seen.push(reading@), c)]
                latest(seen.push(reading@), c) == if channel(reading@.name) == Some(c) {
                    Some(reading@)
                } else {
                    latest(seen, c)
                } by {
                law_later_readings_win(seen, reading@, c);
            }
        }
        let ghost joints = arm.joints@;
        match channel_of(reading.name.as_str()) {
            Some(Channel::MotorTemp(j)) => {
                let mut joint = arm.joints[j];
                joint.motor_temp = Some(reading.temp_c.widen());
                arm.joints[j] = joint;
            },
            Some(Channel::DriverTemp(j)) => {
                let mut joint = arm.joints[j];
                joint.driver_temp = Some(reading.temp_c.widen());
                arm.joints[j] = joint;
            },
            Some(Channel::Power(j)) => {
                let mut joint = arm.joints[j];
                joint.voltage = Some(reading.voltage.widen());
                joint.current = Some(reading.current_a.widen());
                arm.joints[j] = joint;
            },
            Some(Channel::JointError(j)) => {
                let mut joint = arm.joints[j];
                joint.error = reading.current_a.to_u32();
                arm.joints[j] = joint;
            },
            Some(Channel::JointEnabled(j)) => {
                let mut joint = arm.joints[j];
                joint.enabled = reading.current_a.at_least_half();
                arm.joints[j] = joint;
            },
            Some(Channel::JointCommunication(j)) => {
                let mut joint = arm.joints[j];
                joint.communication = reading.current_a.at_least_half();
                arm.joints[j] = joint;
            },
            Some(Channel::ArmState) => {
                let raw: u32 = reading.current_a.to_u32();
                arm.arm_state = if raw == 0 {
                    SAFETY_NORMAL
                } else if raw == 2 {
                    SAFETY_ESTOP
                } else {
                    SAFETY_FAULT
                };
            },
            Some(Channel::ArmError) => {
                arm.arm_error = reading.current_a.to_u32();
            },
            Some(Channel::GripperError) => {
                arm.gripper_error = reading.current_a.to_u32();
            },
            Some(Channel::GripperEnabled) => {
                arm.gripper_enabled = reading.current_a.at_least_half();
            },
            Some(Channel::GripperHomed) => {
                arm.gripper_homed = reading.current_a.at_least_half();
            },
            Some(Channel::GripperOpening) => {
                arm.gripper_opening_m = reading.current_a.widen();
            },
            None => {},
        }
        proof {
            assert forall|j: int| 0 <= j < JOINTS implies arm.joints@[j] == joint_readout(
                seen.push(reading@),
                j as usize,
            ) by {
                assert(joints[j] == joint_readout(seen, j as usize));
            }
            assert(arm.joints@ =~= readout(seen.push(reading@)).joints);
        }
        i = i + 1;
    }
    assert(state@.take(n as int) =~= state@);
    arm
}

/// The value of a numeral: nothing is 0, and a digit at the end makes ten times
/// as much and that digit. Code point 48 is the zero.
pub proof fn law_numeral_values(digits: Seq<char>, c: char)
    ensures
        decimal_value(Seq::empty()) == 0,
        decimal_value(digits.push(c)) == 10 * decimal_value(digits) + (c as int - 48),
{
    assert(digits.push(c).drop_last() =~= digits);
}

/// The digits from `at` on end at `end` where all up to there are digits and
/// none stands there.
proof fn lemma_digits_end(text: Seq<char>, at: int, end: int)
    requires
        0 <= at <= end <= text.len(),
        forall|i: int| at <= i < end ==> is_digit(#[trigger] text[i]),
        end < text.len() ==> !is_digit(text[end]),
    ensures
        digits_end(text, at) == end,
    decreases end - at,
{
    if at < end {
        assert(is_digit(text[at]));
        lemma_digits_end(text, at + 1, end);
    }
}

/// The digits that follow `body/arm/joint_` are the number of the joint, counted
/// from 1, whatever comes after them. There are the joints 1 to 6.
pub proof fn law_joint_numbers_are_read(digits: Seq<char>, rest: Seq<char>)
    requires
        digits.len() > 0,
        forall|i: int| 0 <= i < digits.len() ==> 48 <= (#[trigger] digits[i]) as int <= 57,
        rest.len() > 0 ==> !(48 <= rest[0] as int <= 57),
    ensures
        1 <= decimal_value(digits) <= 6 ==> joint_index("body/arm/joint_"@ + digits + rest) == Some(
            (decimal_value(digits) - 1) as usize,
        ),
        !(1 <= decimal_value(digits) <= 6) ==> joint_index("body/arm/joint_"@ + digits + rest)
            is None,
{
    let prefix = "body/arm/joint_"@;
    let name = prefix + digits + rest;
    let start = prefix.len() as int;
    let end = start + digits.len();
    assert(name.subrange(0, start) =~= prefix);
    assert forall|i: int| start <= i < end implies is_digit(#[trigger] name[i]) by {
        assert(name[i] == digits[i - start]);
    }
    if rest.len() > 0 {
        assert(name[end] == rest[0]);
    }
    lemma_digits_end(name, start, end);
    assert(name.subrange(start, end) =~= digits);
}

/// A name that does not go on with a digit after `body/arm/joint_`, or does not
/// begin with that, is about no joint.
pub proof fn law_other_names_are_about_no_joint(name: Seq<char>)
    requires
        forall|c: char, rest: Seq<char>|
            48 <= c as int <= 57 ==> name != #[trigger] ("body/arm/joint_"@.push(c) + rest),
    ensures
        joint_index(name) is None,
{
    let prefix = "body/arm/joint_"@;
    let start = prefix.len() as int;
    if occurs_at(name, prefix, 0) && start < name.len() && is_digit(name[start]) {
        let rest = name.subrange(start + 1, name.len() as int);
        assert(name =~= name.subrange(0, start).push(name[start]) + rest);
        assert(name == prefix.push(name[start]) + rest);
    }
}

/// The latest reading of a channel is the one after which no other of the
/// channel comes. There is none where no reading is of the channel.
pub proof fn law_latest_is_the_last(readings: Seq<ReadingView>, c: Channel)
    ensures
        latest(readings, c) is None <==> forall|i: int|
            0 <= i < readings.len() ==> channel((#[trigger] readings[i]).name) != Some(c),
        latest(readings, c) matches Some(reading) ==> exists|i: int|
            0 <= i < readings.len() && #[trigger] readings[i] == reading && channel(reading.name)
                == Some(c) && forall|j: int|
                i < j < readings.len() ==> channel((#[trigger] readings[j]).name) != Some(c),
    decreases readings.len(),
{
    if readings.len() > 0 {
        let last = readings.len() - 1;
        let fewer = readings.drop_last();
        law_latest_is_the_last(fewer, c);
        assert(readings[last] == readings.last());
        assert forall|i: int| 0 <= i < last implies #[trigger] readings[i] == fewer[i] by {}
        if channel(readings[last].name) != Some(c) {
            if latest(fewer, c) is Some {
                let i = choose|i: int|
                    0 <= i < fewer.len() && #[trigger] fewer[i] == latest(fewer, c)->0 && channel(
                        fewer[i].name,
                    ) == Some(c) && forall|j: int|
                        i < j < fewer.len() ==> channel((#[trigger] fewer[j]).name) != Some(c);
                assert(readings[i] == fewer[i]);
                assert forall|j: int| i < j < readings.len() implies channel(
                    (#[trigger] readings[j]).name,
                ) != Some(c) by {
                    if j < last {
                        assert(readings[j] == fewer[j]);
                    }
                }
            }
            assert forall|i: int| 0 <= i < fewer.len() implies #[trigger] fewer[i] == readings[i] by {
            }
        }
    }
}

/// What is read of a joint comes from the latest readings of its channels: the
/// temperatures from `temp_c`, voltage and current from the same reading, the
/// error code from `current_a` cut off, and the flags from whether `current_a`
/// is at least one half. Without a reading there is no measurement, no error
/// and no flag.
pub proof fn law_joints_are_read(readings: Seq<ReadingView>, j: usize)
    requires
        j < 6,
    ensures
        readout(readings).joints.len() == 6,
        ({
            let joint = readout(readings).joints[j as int];
            &&& match latest(readings, Channel::MotorTemp(j)) {
                Some(r) => joint.motor_temp == Some(r.temp_c.widened()),
                None => joint.motor_temp is None,
            }
            &&& match latest(readings, Channel::DriverTemp(j)) {
                Some(r) => joint.driver_temp == Some(r.temp_c.widened()),
                None => joint.driver_temp is None,
            }
            &&& match latest(readings, Channel::Power(j)) {
                Some(r) => joint.voltage == Some(r.voltage.widened()) && joint.current == Some(
                    r.current_a.widened(),
                ),
                None => joint.voltage is None && joint.current is None,
            }
            &&& match latest(readings, Channel::JointError(j)) {
                Some(r) => joint.error == r.current_a.spec_to_u32(),
                None => joint.error == 0,
            }
            &&& match latest(readings, Channel::JointEnabled(j)) {
                Some(r) => joint.enabled == r.current_a.spec_at_least_half(),
                None => !joint.enabled,
            }
            &&& match latest(readings, Channel::JointCommunication(j)) {
                Some(r) => joint.communication == r.current_a.spec_at_least_half(),
                None => !joint.communication,
            }
        }),
{
}

/// What is read of the arm itself and of its gripper comes from the latest
/// readings of their channels. The arm's state code 0 is normal (1), 2 is an
/// emergency stop (4), and any other one is a fault (5); without a reading the
/// arm is normal, its gripper is off, not homed and at zero, and there is no
/// error.
pub proof fn law_arm_and_gripper_are_read(readings: Seq<ReadingView>)
    ensures
        ({
            let arm = readout(readings);
            &&& match latest(readings, Channel::ArmState) {
                Some(r) => arm.arm_state == (if r.current_a.spec_to_u32() == 0 {
                    1u32
                } else if r.current_a.spec_to_u32() == 2 {
                    4u32
                } else {
                    5u32
                }),
                None => arm.arm_state == 1,
            }
            &&& match latest(readings, Channel::ArmError) {
                Some(r) => arm.arm_error == r.current_a.spec_to_u32(),
                None => arm.arm_error == 0,
            }
            &&& match latest(readings, Channel::GripperError) {
                Some(r) => arm.gripper_error == r.current_a.spec_to_u32(),
                None => arm.gripper_error == 0,
            }
            &&& match latest(readings, Channel::GripperEnabled) {
                Some(r) => arm.gripper_enabled == r.current_a.spec_at_least_half(),
                None => !arm.gripper_enabled,
            }
            &&& match latest(readings, Channel::GripperHomed) {
                Some(r) => arm.gripper_homed == r.current_a.spec_at_least_half(),
                None => !arm.gripper_homed,
            }
            &&& match latest(readings, Channel::GripperOpening) {
                Some(r) => arm.gripper_opening_m == r.current_a.widened(),
                None => arm.gripper_opening_m.bits == 0,
            }
        }),
{
}

/// The view of what was read of an arm shows every field.
pub proof fn law_readout_view(arm: ArmReadout)
    ensures
        arm@.joints == arm.joints@,
        arm@.arm_state == arm.arm_state,
        arm@.arm_error == arm.arm_error,
        arm@.gripper_error == arm.gripper_error,
        arm@.gripper_enabled == arm.gripper_enabled,
        arm@.gripper_homed == arm.gripper_homed,
        arm@.gripper_opening_m == arm.gripper_opening_m,
{
}

} // verus!
