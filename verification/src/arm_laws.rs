//! What holds of the snapshot of a single arm, and of an arm placed on a side.

use crate::codes::{JOINTS, SAFETY_NORMAL};
use crate::merge::{
    arm_id, below_body, namespaced_component, namespaced_components, namespaced_frame,
    namespaced_path, title_cased,
};
use crate::model::{ComponentView, FaultView, ReadingView, ScalarView, SnapshotView};
use crate::number::{
    law_half_is_the_threshold, law_widening_keeps_the_threshold, law_widening_keeps_the_value,
    law_zero_is_the_threshold, Real32, Real64,
};
use crate::readout::{
    channel, decimal_value, digits_end, ends_in, is_digit, joint_index, latest,
    law_arm_and_gripper_are_read, law_joints_are_read, law_later_readings_win, readout, ArmReadoutView, Channel, JointReadout,
};
use crate::snapshot::{
    actuators_of, arm_fault, arm_snapshot, component_view, components_of, faults_of,
    gripper_fault, joint_fault, joint_faults, joint_id, joint_name, measured, safety_of, scalar_view, unknown_snapshot,
};
use crate::text::{
    decimal, digit, first_at, hexadecimal, hexadecimal_padded, law_ends_of_texts, occurs_at, occurs_in, without_prefixes,
};
use vstd::arithmetic::power2::{lemma_pow2_pos, pow2};
use vstd::prelude::*;

verus! {

/// What follows the arm's own id in the id of its component number `i`,
/// counted in the order of the component tree with the body as 0.
pub open spec fn below_arm(i: int) -> Seq<char> {
    if i == 1 {
        Seq::empty()
    } else if i < 2 + JOINTS {
        "/joint_"@ + decimal((i - 1) as nat)
    } else {
        "/gripper"@
    }
}

/// The ids and parents of the components of a single arm.
proof fn lemma_tree(arm_model: Seq<char>)
    ensures
        components_of(arm_model).len() == 9,
        components_of(arm_model)[0].id == "body"@,
        forall|i: int|
            1 <= i < 9 ==> (#[trigger] components_of(arm_model)[i]).id == "body/arm"@ + below_arm(
                i,
            ),
        components_of(arm_model)[1].parent_id == "body"@,
        forall|i: int|
            2 <= i < 9 ==> (#[trigger] components_of(arm_model)[i]).parent_id == "body/arm"@,
{
    let all = components_of(arm_model);
    reveal_strlit("body/arm");
    reveal_strlit("body/arm/joint_");
    reveal_strlit("/joint_");
    reveal_strlit("body/arm/gripper");
    reveal_strlit("/gripper");
    assert("body/arm"@ + Seq::<char>::empty() =~= "body/arm"@);
    assert("body/arm/gripper"@ =~= "body/arm"@ + "/gripper"@);
    assert("body/arm/joint_"@ =~= "body/arm"@ + "/joint_"@);
    assert forall|i: int| 1 <= i < 9 implies (#[trigger] all[i]).id == "body/arm"@ + below_arm(
        i,
    ) by {
        if 2 <= i < 8 {
            assert(all[i].id == joint_id((i - 1) as nat));
            assert(joint_id((i - 1) as nat) =~= "body/arm"@ + ("/joint_"@ + decimal(
                (i - 1) as nat,
            )));
        }
    }
}

/// What is below the arm is told apart by what follows the arm's id.
pub proof fn lemma_below_arm_distinct(i: int, j: int)
    requires
        1 <= i < j < 9,
    ensures
        below_arm(i) != below_arm(j),
{
    reveal_strlit("/joint_");
    reveal_strlit("/gripper");
    if i > 1 {
        if j < 8 {
            let a = below_arm(i);
            let b = below_arm(j);
            assert(a[7] == digit(i - 1));
            assert(b[7] == digit(j - 1));
        } else {
            assert(below_arm(i)[1] == 'j');
            assert(below_arm(j)[1] == 'g');
        }
    } else {
        assert(below_arm(i).len() == 0);
        assert(below_arm(j).len() > 0);
    }
}

/// The component tree of a single arm: nine components with different ids,
/// each below one that is listed before it but for the body, which is first
/// and has no parent.
pub proof fn law_arm_tree(arm_model: Seq<char>)
    ensures
        components_of(arm_model).len() == 9,
        components_of(arm_model)[0].id == "body"@,
        components_of(arm_model)[0].parent_id == ""@,
        forall|i: int, j: int|
            0 <= i < j < 9 ==> (#[trigger] components_of(arm_model)[i]).id != (
            #[trigger] components_of(arm_model)[j]).id,
        forall|i: int|
            1 <= i < 9 ==> exists|k: int|
                0 <= k < i && (#[trigger] components_of(arm_model)[k]).id == (
                #[trigger] components_of(arm_model)[i]).parent_id,
{
    let all = components_of(arm_model);
    lemma_tree(arm_model);
    reveal_strlit("body");
    reveal_strlit("body/arm");
    assert forall|i: int, j: int| 0 <= i < j < 9 implies (#[trigger] all[i]).id != (
    #[trigger] all[j]).id by {
        if i == 0 {
            assert(all[j].id.len() >= 8);
        } else {
            lemma_below_arm_distinct(i, j);
            if all[i].id == all[j].id {
                assert(all[i].id.skip(8) =~= below_arm(i));
                assert(all[j].id.skip(8) =~= below_arm(j));
            }
        }
    }
    assert("body/arm"@ + below_arm(1) =~= "body/arm"@);
    assert forall|i: int| 1 <= i < 9 implies exists|k: int|
        0 <= k < i && (#[trigger] all[k]).id == (#[trigger] all[i]).parent_id by {
        if i == 1 {
            assert(all[0].id == all[i].parent_id);
        } else {
            assert(all[1].id == all[i].parent_id);
        }
    }
}

/// Is there a component with this id among `components`?
pub open spec fn lists(components: Seq<ComponentView>, id: Seq<char>) -> bool {
    exists|i: int| 0 <= i < components.len() && (#[trigger] components[i]).id == id
}

/// Does every actuator and every fault belong to a component that is listed?
pub open spec fn belongs(snapshot: SnapshotView) -> bool {
    &&& forall|i: int|
        0 <= i < snapshot.actuators.len() ==> lists(
            snapshot.components,
            (#[trigger] snapshot.actuators[i]).component_id,
        )
    &&& forall|i: int|
        0 <= i < snapshot.faults.len() ==> lists(
            snapshot.components,
            (#[trigger] snapshot.faults[i]).component_id,
        )
}

/// Is `fault` the one of the joint with number `n`, counted from 1, and does
/// the joint report an error?
spec fn is_joint_fault(joints: Seq<JointReadout>, n: int, now_ns: i64, fault: FaultView) -> bool {
    &&& 1 <= n <= joints.len()
    &&& joints[n - 1].error != 0
    &&& fault == joint_fault(n as nat, joints[n - 1].error, now_ns)
}

/// Is `fault` the one of a joint that reports an error?
spec fn of_some_joint(joints: Seq<JointReadout>, now_ns: i64, fault: FaultView) -> bool {
    exists|n: int| is_joint_fault(joints, n, now_ns, fault)
}

/// The faults of the first `n` joints are those of the joints that report an
/// error.
proof fn lemma_joint_faults(joints: Seq<JointReadout>, n: nat, now_ns: i64)
    requires
        n <= joints.len(),
    ensures
        forall|i: int|
            0 <= i < joint_faults(joints, n, now_ns).len() ==> of_some_joint(
                joints,
                now_ns,
                #[trigger] joint_faults(joints, n, now_ns)[i],
            ),
        forall|k: int, fault: FaultView|
            k <= n && #[trigger] is_joint_fault(joints, k, now_ns, fault) ==> joint_faults(
                joints,
                n,
                now_ns,
            ).contains(fault),
    decreases n,
{
    if n > 0 {
        lemma_joint_faults(joints, (n - 1) as nat, now_ns);
        let earlier = joint_faults(joints, (n - 1) as nat, now_ns);
        let all = joint_faults(joints, n, now_ns);
        assert forall|i: int| 0 <= i < all.len() implies of_some_joint(
            joints,
            now_ns,
            #[trigger] all[i],
        ) by {
            if i < earlier.len() {
                assert(all[i] == earlier[i]);
            } else {
                assert(is_joint_fault(joints, n as int, now_ns, all[i]));
            }
        }
        assert forall|k: int, fault: FaultView|
            k <= n && #[trigger] is_joint_fault(joints, k, now_ns, fault) implies all.contains(
            fault,
        ) by {
            if k < n {
                let i = choose|i: int| 0 <= i < earlier.len() && earlier[i] == fault;
                assert(all[i] == fault);
            } else {
                assert(all[earlier.len() as int] == fault);
            }
        }
    }
}

/// Every actuator and every fault of an arm belongs to a component of it.
pub proof fn law_arm_parts_are_components(
    readings: Seq<ReadingView>,
    body_id: Seq<char>,
    arm_model: Seq<char>,
    seq: u64,
    now_ns: i64,
)
    ensures
        arm_snapshot(readings, body_id, arm_model, seq, now_ns).actuators.len() == 7,
        belongs(arm_snapshot(readings, body_id, arm_model, seq, now_ns)),
{
    let arm = readout(readings);
    let snapshot = arm_snapshot(readings, body_id, arm_model, seq, now_ns);
    let all = snapshot.components;
    lemma_tree(arm_model);
    assert forall|n: int| 1 <= n <= JOINTS implies lists(all, #[trigger] joint_id(n as nat)) by {
        assert(all[n + 1].id == joint_id(n as nat));
    }
    assert(lists(all, "body/arm"@)) by {
        assert(all[1].id == "body/arm"@);
    }
    assert(lists(all, "body/arm/gripper"@)) by {
        assert(all[8].id == "body/arm/gripper"@);
    }
    assert forall|i: int| 0 <= i < snapshot.actuators.len() implies lists(
        all,
        (#[trigger] snapshot.actuators[i]).component_id,
    ) by {
        if i < JOINTS {
            assert(snapshot.actuators[i].component_id == joint_id((i + 1) as nat));
        }
    }
    assert forall|i: int| 0 <= i < snapshot.faults.len() implies lists(
        all,
        (#[trigger] snapshot.faults[i]).component_id,
    ) by {
        lemma_joint_faults(arm.joints, arm.joints.len(), now_ns);
        let of_joints = joint_faults(arm.joints, arm.joints.len(), now_ns);
        let start: int = if arm.arm_error != 0 {
            1
        } else {
            0
        };
        if start <= i < start + of_joints.len() {
            assert(snapshot.faults[i] == of_joints[i - start]);
            let fault = of_joints[i - start];
            let k = choose|k: int| is_joint_fault(arm.joints, k, now_ns, fault);
            assert(snapshot.faults[i].component_id == joint_id(k as nat));
        }
    }
}

/// An arm has a fault exactly where an error code is not zero: of its
/// controller, of the joint with number `n`, counted from 1, and of its
/// gripper. The fault carries the code.
pub proof fn law_fault_for_every_error(readings: Seq<ReadingView>, now_ns: i64, n: int)
    requires
        1 <= n <= JOINTS,
    ensures
        readout(readings).arm_error != 0 <==> exists|i: int|
            0 <= i < faults_of(readout(readings), now_ns).len() && (#[trigger] faults_of(
                readout(readings),
                now_ns,
            )[i]).component_id == "body/arm"@,
        readout(readings).joints[n - 1].error != 0 <==> exists|i: int|
            0 <= i < faults_of(readout(readings), now_ns).len() && (#[trigger] faults_of(
                readout(readings),
                now_ns,
            )[i]).component_id == joint_id(n as nat),
        readout(readings).gripper_error != 0 <==> exists|i: int|
            0 <= i < faults_of(readout(readings), now_ns).len() && (#[trigger] faults_of(
                readout(readings),
                now_ns,
            )[i]).component_id == "body/arm/gripper"@,
        forall|i: int|
            0 <= i < faults_of(readout(readings), now_ns).len() ==> {
                let fault = #[trigger] faults_of(readout(readings), now_ns)[i];
                &&& fault.active
                &&& fault.onset_ts_ns == now_ns
                &&& fault.component_id == "body/arm"@ ==> fault.vendor_code == readout(
                    readings,
                ).arm_error
                &&& fault.component_id == joint_id(n as nat) ==> fault.vendor_code == readout(
                    readings,
                ).joints[n - 1].error
                &&& fault.component_id == "body/arm/gripper"@ ==> fault.vendor_code == readout(
                    readings,
                ).gripper_error
            },
{
    let arm = readout(readings);
    let faults = faults_of(arm, now_ns);
    let of_joints = joint_faults(arm.joints, arm.joints.len(), now_ns);
    let start: int = if arm.arm_error != 0 {
        1
    } else {
        0
    };
    let end = start + of_joints.len();
    lemma_joint_faults(arm.joints, arm.joints.len(), now_ns);
    let model = Seq::<char>::empty();
    lemma_tree(model);
    law_arm_tree(model);
    let all = components_of(model);
    assert(all[1].id == "body/arm"@);
    assert(all[8].id == "body/arm/gripper"@);
    assert forall|k: int| 1 <= k <= JOINTS implies #[trigger] joint_id(k as nat) == all[k + 1].id by {
    }
    assert forall|i: int| 0 <= i < faults.len() implies ({
        let fault = #[trigger] faults[i];
        &&& fault.active
        &&& fault.onset_ts_ns == now_ns
        &&& fault.component_id == "body/arm"@ ==> fault.vendor_code == arm.arm_error && i < start
        &&& fault.component_id == joint_id(n as nat) ==> fault.vendor_code == arm.joints[n
            - 1].error && fault.vendor_code != 0
        &&& fault.component_id == "body/arm/gripper"@ ==> fault.vendor_code == arm.gripper_error
            && i >= end
    }) by {
        if start <= i < end {
            assert(faults[i] == of_joints[i - start]);
            let fault = of_joints[i - start];
            let k = choose|k: int| is_joint_fault(arm.joints, k, now_ns, fault);
            assert(faults[i].component_id == joint_id(k as nat));
            assert(all[k + 1].id != all[1].id);
            assert(all[k + 1].id != all[8].id);
            if k != n {
                assert(all[k + 1].id != all[n + 1].id);
            }
        } else if i < start {
            assert(all[1].id != all[8].id);
            assert(all[1].id != all[n + 1].id);
        } else {
            assert(all[1].id != all[8].id);
            assert(all[8].id != all[n + 1].id);
        }
    }
    if arm.arm_error != 0 {
        assert(faults[0].component_id == "body/arm"@);
    }
    if arm.gripper_error != 0 {
        assert(faults[end].component_id == "body/arm/gripper"@);
    }
    if arm.joints[n - 1].error != 0 {
        let f = joint_fault(n as nat, arm.joints[n - 1].error, now_ns);
        assert(is_joint_fault(arm.joints, n, now_ns, f));
        let i = choose|i: int| 0 <= i < of_joints.len() && of_joints[i] == f;
        assert(faults[start + i] == f);
    }
}

/// A measurement is published exactly where it is a number that is not
/// negative, and its value is then the value that was read (the two precisions
/// count in units that are 2^925 apart).
pub proof fn law_measurements_are_published_as_read(x: Real32, unit: Seq<char>)
    ensures
        measured(Some(x.widened()), unit) is Some <==> !x.is_nan() && if x.is_infinite() {
            !x.negative()
        } else {
            x.scaled() >= 0
        },
        measured(Some(x.widened()), unit) matches Some(published) ==> {
            &&& published.unit == unit
            &&& published.value.is_infinite() == x.is_infinite()
            &&& x.is_finite() ==> published.value.scaled() == x.scaled() * pow2(925)
        },
        measured(None, unit) is None,
{
    law_widening_keeps_the_value(x);
    lemma_pow2_pos(925);
    let v = x.scaled();
    let p = pow2(925) as int;
    assert(v >= 0 <==> v * p >= 0) by (nonlinear_arith)
        requires
            p > 0,
    ;
}

/// Motor power is allowed only where motion is, motion only while the arm
/// itself is in its normal state.
pub proof fn law_power_needs_motion_needs_normal(readings: Seq<ReadingView>)
    ensures
        safety_of(readout(readings)).motor_power_allowed ==> safety_of(
            readout(readings),
        ).motion_allowed,
        safety_of(readout(readings)).motion_allowed ==> safety_of(
            readout(readings),
        ).aggregate_state == SAFETY_NORMAL,
{
}

/// An arm that any joint has not been heard from may not move. So an arm
/// without readings may not.
pub proof fn law_silent_joint_stops_the_arm(readings: Seq<ReadingView>, joint: usize)
    requires
        joint < JOINTS,
        latest(readings, Channel::JointCommunication(joint)) is None,
    ensures
        !safety_of(readout(readings)).motion_allowed,
{
    assert(!readout(readings).joints[joint as int].communication);
}

/// A reading whose name stands for no channel changes nothing.
pub proof fn law_unknown_readings_are_ignored(readings: Seq<ReadingView>, reading: ReadingView)
    requires
        channel(reading.name) is None,
    ensures
        readout(readings.push(reading)) == readout(readings),
{
    assert forall|c: Channel| latest(readings.push(reading), c) == #[trigger] latest(readings, c) by {
        law_later_readings_win(readings, reading, c);
    }
    assert(readout(readings.push(reading)).joints =~= readout(readings).joints);
}

/// A fault without its time.
pub open spec fn untimed_fault(fault: FaultView) -> FaultView {
    FaultView { onset_ts_ns: 0, ..fault }
}

/// Faults without their times.
pub open spec fn untimed_faults(faults: Seq<FaultView>) -> Seq<FaultView> {
    faults.map_values(|fault: FaultView| untimed_fault(fault))
}

/// A snapshot without its times.
pub open spec fn untimed(snapshot: SnapshotView) -> SnapshotView {
    SnapshotView {
        source_ts_ns: 0,
        soma_ts_ns: 0,
        faults: untimed_faults(snapshot.faults),
        ..snapshot
    }
}

/// But for their times, the faults of the first `n` joints do not depend on the
/// time.
proof fn lemma_joint_faults_untimed(joints: Seq<JointReadout>, n: nat, a_ns: i64, b_ns: i64)
    ensures
        untimed_faults(joint_faults(joints, n, a_ns)) == untimed_faults(
            joint_faults(joints, n, b_ns),
        ),
    decreases n,
{
    if n > 0 {
        let m = (n - 1) as nat;
        let code = joints[n - 1].error;
        lemma_joint_faults_untimed(joints, m, a_ns, b_ns);
        if code != 0 {
            let a = joint_faults(joints, m, a_ns);
            let b = joint_faults(joints, m, b_ns);
            assert(untimed_faults(a.push(joint_fault(n, code, a_ns))) =~= untimed_faults(a).push(
                untimed_fault(joint_fault(n, code, a_ns)),
            ));
            assert(untimed_faults(b.push(joint_fault(n, code, b_ns))) =~= untimed_faults(b).push(
                untimed_fault(joint_fault(n, code, b_ns)),
            ));
        }
    }
}

/// But for their times, the faults of an arm do not depend on the time.
proof fn lemma_faults_untimed(arm: ArmReadoutView, a_ns: i64, b_ns: i64)
    ensures
        untimed_faults(faults_of(arm, a_ns)) == untimed_faults(faults_of(arm, b_ns)),
{
    let n = arm.joints.len();
    lemma_joint_faults_untimed(arm.joints, n, a_ns, b_ns);
    let a = joint_faults(arm.joints, n, a_ns);
    let b = joint_faults(arm.joints, n, b_ns);
    assert(untimed_faults(a).len() == untimed_faults(b).len());
    assert forall|i: int| 0 <= i < a.len() implies untimed_fault(#[trigger] a[i]) == untimed_fault(
        b[i],
    ) by {
        assert(untimed_faults(a)[i] == untimed_faults(b)[i]);
    }
    assert(untimed_faults(faults_of(arm, a_ns)) =~= untimed_faults(faults_of(arm, b_ns)));
}

/// The snapshot of an arm depends on the last reading of every channel alone:
/// two frames that agree on those give the same snapshot but for its times.
pub proof fn law_last_readings_decide(
    a: Seq<ReadingView>,
    b: Seq<ReadingView>,
    body_id: Seq<char>,
    arm_model: Seq<char>,
    seq: u64,
    a_ns: i64,
    b_ns: i64,
)
    requires
        forall|c: Channel| #[trigger] latest(a, c) == latest(b, c),
    ensures
        readout(a) == readout(b),
        untimed(arm_snapshot(a, body_id, arm_model, seq, a_ns)) == untimed(
            arm_snapshot(b, body_id, arm_model, seq, b_ns),
        ),
{
    assert(readout(a).joints =~= readout(b).joints);
    lemma_faults_untimed(readout(a), a_ns, b_ns);
}

/// The faults of the first `n` joints are stamped with the time of the snapshot.
proof fn lemma_joint_faults_stamped(joints: Seq<JointReadout>, n: nat, now_ns: i64)
    ensures
        forall|i: int|
            0 <= i < joint_faults(joints, n, now_ns).len() ==> (#[trigger] joint_faults(
                joints,
                n,
                now_ns,
            )[i]).onset_ts_ns == now_ns,
    decreases n,
{
    if n > 0 {
        let earlier = joint_faults(joints, (n - 1) as nat, now_ns);
        let all = joint_faults(joints, n, now_ns);
        lemma_joint_faults_stamped(joints, (n - 1) as nat, now_ns);
        assert forall|i: int| 0 <= i < all.len() implies (#[trigger] all[i]).onset_ts_ns
            == now_ns by {
            if i < earlier.len() {
                assert(all[i] == earlier[i]);
            }
        }
    }
}

/// Every fault of an arm is stamped with the time of its snapshot.
pub proof fn law_faults_carry_the_time(arm: ArmReadoutView, now_ns: i64)
    ensures
        forall|i: int|
            0 <= i < faults_of(arm, now_ns).len() ==> (#[trigger] faults_of(
                arm,
                now_ns,
            )[i]).onset_ts_ns == now_ns,
{
    lemma_joint_faults_stamped(arm.joints, arm.joints.len(), now_ns);
}

/// Two readings for different channels may come in either order.
pub proof fn law_order_between_channels_is_free(
    readings: Seq<ReadingView>,
    a: ReadingView,
    b: ReadingView,
)
    requires
        channel(a.name) != channel(b.name),
    ensures
        readout(readings.push(a).push(b)) == readout(readings.push(b).push(a)),
{
    let ab = readings.push(a).push(b);
    let ba = readings.push(b).push(a);
    assert forall|c: Channel| latest(ab, c) == #[trigger] latest(ba, c) by {
        law_later_readings_win(readings, a, c);
        law_later_readings_win(readings, b, c);
        law_later_readings_win(readings.push(a), b, c);
        law_later_readings_win(readings.push(b), a, c);
    }
    assert(readout(ab).joints =~= readout(ba).joints);
}

/// The path of something on an arm keeps what follows the arm.
pub proof fn lemma_path_below_arm(rest: Seq<char>, arm: Seq<char>)
    ensures
        namespaced_path("body/arm"@ + rest, arm) == arm + rest,
{
    let path = "body/arm"@ + rest;
    reveal_strlit("body/arm");
    reveal_strlit("body");
    assert(path.subrange(0, 8) =~= "body/arm"@);
    assert(first_at(path, "body/arm"@, 0));
    assert(occurs_in(path, "body/arm"@));
    let at = choose|at: int| first_at(path, "body/arm"@, at);
    assert(first_at(path, "body/arm"@, at));
    assert(at == 0);
    assert(path.subrange(0, 0) + arm + path.subrange(8, path.len() as int) =~= arm + rest);
}

/// The frame of a joint carries the side and the joint's number.
pub proof fn lemma_joint_frame(n: nat, side: Seq<char>)
    requires
        1 <= n <= JOINTS,
    ensures
        namespaced_frame(joint_name(n), side) == side + "_joint"@ + decimal(n),
{
    let name = joint_name(n);
    reveal_strlit("joint_");
    reveal_strlit("arm_base_link");
    reveal_strlit("gripper_base");
    reveal_strlit("gripper");
    assert(name[0] == 'j');
    assert(name.subrange(0, 6) =~= "joint_"@);
    assert(name.subrange(6, name.len() as int) =~= decimal(n));
    assert(decimal(n).len() == 1);
    assert(without_prefixes(decimal(n), "joint_"@) == decimal(n));
}

/// Is `placed` what becomes of component number `i` of a single arm, `single`,
/// on a side of the body? The arm's component carries the side in its id, name
/// and frame and is below the body; the joints and the gripper are below it,
/// under the names that they have on a single arm.
pub open spec fn placed_on(
    placed: ComponentView,
    single: ComponentView,
    i: int,
    side: Seq<char>,
) -> bool {
    &&& placed.id == arm_id(side) + below_arm(i)
    &&& placed.kind == single.kind
    &&& placed.model == single.model
    &&& placed.parent_id == if i == 1 {
        "body"@
    } else {
        arm_id(side)
    }
    &&& placed.name == if i == 1 {
        title_cased(side) + " Piper arm"@
    } else {
        single.name
    }
    &&& placed.frame_id == if i == 1 {
        side + "_base_link"@
    } else if i < 2 + JOINTS {
        side + "_joint"@ + decimal((i - 1) as nat)
    } else {
        side + "_gripper_base"@
    }
}

/// Each component of a single arm becomes what it should on a side.
proof fn lemma_placed(i: int, side: Seq<char>, arm_model: Seq<char>)
    requires
        1 <= i < 9,
    ensures
        placed_on(
            namespaced_component(components_of(arm_model)[i], side),
            components_of(arm_model)[i],
            i,
            side,
        ),
{
    let single = components_of(arm_model)[i];
    let arm = arm_id(side);
    lemma_tree(arm_model);
    lemma_path_below_arm(below_arm(i), arm);
    if i == 1 {
        assert(arm + below_arm(1) =~= arm);
        assert(single.frame_id == "arm_base_link"@);
    } else {
        lemma_path_below_arm(Seq::empty(), arm);
        assert("body/arm"@ + Seq::<char>::empty() =~= "body/arm"@);
        assert(arm + Seq::<char>::empty() =~= arm);
        reveal_strlit("/joint_");
        reveal_strlit("/gripper");
        assert((arm + below_arm(i)).len() > arm.len());
        if i < 8 {
            lemma_joint_frame((i - 1) as nat, side);
            assert(single.frame_id == joint_name((i - 1) as nat));
        } else {
            reveal_strlit("gripper_base");
            reveal_strlit("arm_base_link");
            assert(single.frame_id == "gripper_base"@);
        }
    }
}

/// Every component but the body is below the body.
proof fn lemma_all_but_body(arm_model: Seq<char>)
    ensures
        components_of(arm_model).filter(|item: ComponentView| below_body(item)) == components_of(
            arm_model,
        ).skip(1),
{
    let all = components_of(arm_model);
    let keep = |item: ComponentView| below_body(item);
    let rest = all.skip(1);
    law_arm_tree(arm_model);
    assert(all =~= seq![all[0]] + rest);
    rest.lemma_filter_prepend(all[0], keep);
    assert forall|i: int| 0 <= i < rest.len() implies keep(#[trigger] rest[i]) by {
        assert(rest[i] == all[i + 1]);
        assert(all[0].id != all[i + 1].id);
    }
    lemma_filter_keeps_all(rest, keep);
    assert(all.filter(keep) =~= rest);
}

/// An arm on a side of the body adds its own component, its joints and its
/// gripper, each placed on that side. The component of the body itself is left
/// out.
pub proof fn law_arm_is_placed_on_its_side(side: Seq<char>, arm_model: Seq<char>)
    ensures
        namespaced_components(components_of(arm_model), side).len() == 8,
        forall|i: int|
            0 <= i < 8 ==> placed_on(
                #[trigger] namespaced_components(components_of(arm_model), side)[i],
                components_of(arm_model)[i + 1],
                i + 1,
                side,
            ),
{
    lemma_all_but_body(arm_model);
    law_arm_tree(arm_model);
    let placed = namespaced_components(components_of(arm_model), side);
    assert forall|i: int| 0 <= i < 8 implies placed_on(
        #[trigger] placed[i],
        components_of(arm_model)[i + 1],
        i + 1,
        side,
    ) by {
        lemma_placed(i + 1, side, arm_model);
    }
}

/// The components that an arm adds are those of a single arm, each made that
/// of the side.
pub proof fn lemma_placed_item(side: Seq<char>, arm_model: Seq<char>, i: int)
    requires
        1 <= i < 9,
    ensures
        namespaced_components(components_of(arm_model), side)[i - 1] == namespaced_component(
            components_of(arm_model)[i],
            side,
        ),
{
    lemma_all_but_body(arm_model);
    law_arm_tree(arm_model);
}

/// A filter that keeps every item keeps the sequence.
proof fn lemma_filter_keeps_all<A>(items: Seq<A>, keep: spec_fn(A) -> bool)
    requires
        forall|i: int| 0 <= i < items.len() ==> keep(#[trigger] items[i]),
    ensures
        items.filter(keep) == items,
    decreases items.len(),
{
    reveal(Seq::filter);
    if items.len() > 0 {
        let fewer = items.drop_last();
        assert forall|i: int| 0 <= i < fewer.len() implies keep(#[trigger] fewer[i]) by {
            assert(fewer[i] == items[i]);
        }
        lemma_filter_keeps_all(fewer, keep);
        assert(keep(items[items.len() - 1]));
        assert(items =~= fewer.push(items.last()));
    }
}

/// A numeral reads back as the number that it writes.
pub proof fn law_decimal_reads_back(n: nat)
    ensures
        decimal_value(decimal(n)) == n,
        decimal(n).len() > 0,
        forall|i: int| 0 <= i < decimal(n).len() ==> is_digit(#[trigger] decimal(n)[i]),
    decreases n,
{
    if n < 10 {
        assert(decimal(n).drop_last() =~= Seq::<char>::empty());
        assert(decimal(n).last() == digit(n as int));
        assert(decimal_value(Seq::<char>::empty()) == 0);
    } else {
        law_decimal_reads_back(n / 10);
        assert(decimal(n).drop_last() =~= decimal(n / 10));
        assert(decimal(n).last() == digit((n % 10) as int));
    }
}

/// Every joint is found by the id that it is published under, whatever follows
/// its number, unless that is another digit.
pub proof fn law_joint_ids_read_back(n: nat, rest: Seq<char>)
    requires
        1 <= n <= JOINTS,
        rest.len() > 0 ==> !is_digit(rest[0]),
    ensures
        joint_index(joint_id(n) + rest) == Some((n - 1) as usize),
{
    let name = joint_id(n) + rest;
    let start = "body/arm/joint_"@.len() as int;
    reveal_strlit("body/arm/joint_");
    law_decimal_reads_back(n);
    assert(name.subrange(0, start) =~= "body/arm/joint_"@);
    assert(name[start] == decimal(n)[0]);
    if rest.len() > 0 {
        assert(name[start + 1] == rest[0]);
    }
    assert(digits_end(name, start + 1) == start + 1);
    assert(name.subrange(start, start + 1) =~= decimal(n));
}

/// Every channel of a joint has a name.
pub proof fn law_joint_channels_have_names(n: nat)
    requires
        1 <= n <= JOINTS,
    ensures
        channel(joint_id(n) + "/motor_temp"@) == Some(Channel::MotorTemp((n - 1) as usize)),
        channel(joint_id(n) + "/driver_temp"@) == Some(Channel::DriverTemp((n - 1) as usize)),
        channel(joint_id(n) + "/voltage"@) == Some(Channel::Power((n - 1) as usize)),
        channel(joint_id(n) + "/error"@) == Some(Channel::JointError((n - 1) as usize)),
        channel(joint_id(n) + "/enabled"@) == Some(Channel::JointEnabled((n - 1) as usize)),
        channel(joint_id(n) + "/communication_ok"@) == Some(
            Channel::JointCommunication((n - 1) as usize),
        ),
{
    reveal_strlit("/motor_temp");
    reveal_strlit("/driver_temp");
    reveal_strlit("/voltage");
    reveal_strlit("/error");
    reveal_strlit("/enabled");
    reveal_strlit("/communication_ok");
    law_joint_ids_read_back(n, "/motor_temp"@);
    law_joint_ids_read_back(n, "/driver_temp"@);
    law_joint_ids_read_back(n, "/voltage"@);
    law_joint_ids_read_back(n, "/error"@);
    law_joint_ids_read_back(n, "/enabled"@);
    law_joint_ids_read_back(n, "/communication_ok"@);
    lemma_ends_in(joint_id(n), "/motor_temp"@);
    lemma_ends_in(joint_id(n), "/driver_temp"@);
    lemma_ends_in(joint_id(n), "/voltage"@);
    lemma_ends_in(joint_id(n), "/error"@);
    lemma_ends_in(joint_id(n), "/enabled"@);
    lemma_ends_in(joint_id(n), "/communication_ok"@);
    lemma_not_ends_in(joint_id(n) + "/driver_temp"@, "/motor_temp"@, 11);
    lemma_not_ends_in(joint_id(n) + "/voltage"@, "/motor_temp"@, 1);
    lemma_not_ends_in(joint_id(n) + "/voltage"@, "/driver_temp"@, 1);
    lemma_not_ends_in(joint_id(n) + "/error"@, "/motor_temp"@, 1);
    lemma_not_ends_in(joint_id(n) + "/error"@, "/driver_temp"@, 1);
    lemma_not_ends_in(joint_id(n) + "/error"@, "/voltage"@, 1);
    lemma_not_ends_in(joint_id(n) + "/enabled"@, "/motor_temp"@, 1);
    lemma_not_ends_in(joint_id(n) + "/enabled"@, "/driver_temp"@, 1);
    lemma_not_ends_in(joint_id(n) + "/enabled"@, "/voltage"@, 1);
    lemma_not_ends_in(joint_id(n) + "/enabled"@, "/error"@, 1);
    lemma_not_ends_in(joint_id(n) + "/communication_ok"@, "/motor_temp"@, 1);
    lemma_not_ends_in(joint_id(n) + "/communication_ok"@, "/driver_temp"@, 1);
    lemma_not_ends_in(joint_id(n) + "/communication_ok"@, "/voltage"@, 1);
    lemma_not_ends_in(joint_id(n) + "/communication_ok"@, "/error"@, 1);
    lemma_not_ends_in(joint_id(n) + "/communication_ok"@, "/enabled"@, 1);
}

/// A text ends in what was put at its end.
proof fn lemma_ends_in(front: Seq<char>, suffix: Seq<char>)
    ensures
        ends_in(front + suffix, suffix),
{
    let text = front + suffix;
    assert(text.subrange(text.len() - suffix.len(), text.len() as int) =~= suffix);
}

/// A text does not end in a suffix that differs from it `back` characters from
/// the end.
proof fn lemma_not_ends_in(text: Seq<char>, suffix: Seq<char>, back: int)
    requires
        1 <= back <= suffix.len(),
        back <= text.len(),
        text[text.len() - back] != suffix[suffix.len() - back],
    ensures
        !ends_in(text, suffix),
{
    if ends_in(text, suffix) {
        let end = text.subrange(text.len() - suffix.len(), text.len() as int);
        assert(end[suffix.len() - back] == text[text.len() - back]);
    }
}

/// Every channel of the arm and of the gripper has a name.
pub proof fn law_arm_channels_have_names()
    ensures
        channel("body/arm/state"@) == Some(Channel::ArmState),
        channel("body/arm/error"@) == Some(Channel::ArmError),
        channel("body/arm/gripper/error"@) == Some(Channel::GripperError),
        channel("body/arm/gripper/enabled"@) == Some(Channel::GripperEnabled),
        channel("body/arm/gripper/homed"@) == Some(Channel::GripperHomed),
        channel("body/arm/gripper/opening_m"@) == Some(Channel::GripperOpening),
{
    reveal_strlit("body/arm/joint_");
    reveal_strlit("body/arm/state");
    reveal_strlit("body/arm/error");
    reveal_strlit("body/arm/gripper/error");
    reveal_strlit("body/arm/gripper/enabled");
    reveal_strlit("body/arm/gripper/homed");
    reveal_strlit("body/arm/gripper/opening_m");
    assert("body/arm/state"@[9] != "body/arm/error"@[9]);
    assert("body/arm/gripper/error"@[17] != "body/arm/gripper/homed"@[17]);
    lemma_no_joint("body/arm/state"@);
    lemma_no_joint("body/arm/error"@);
    lemma_no_joint("body/arm/gripper/error"@);
    lemma_no_joint("body/arm/gripper/enabled"@);
    lemma_no_joint("body/arm/gripper/homed"@);
    lemma_no_joint("body/arm/gripper/opening_m"@);
}

/// A name whose tenth character is not the one of `joint` is not about a joint.
proof fn lemma_no_joint(name: Seq<char>)
    requires
        name.len() >= 10,
        name[9] != 'j',
    ensures
        joint_index(name) is None,
{
    reveal_strlit("body/arm/joint_");
    if occurs_at(name, "body/arm/joint_"@, 0) {
        let front = name.subrange(0, "body/arm/joint_"@.len() as int);
        assert(front[9] == name[9]);
    }
}

/// No text ends in two suffixes that differ `back` characters from the end.
proof fn lemma_one_end(text: Seq<char>, a: Seq<char>, b: Seq<char>, back: int)
    requires
        1 <= back <= a.len(),
        back <= b.len(),
        a[a.len() - back] != b[b.len() - back],
    ensures
        !(ends_in(text, a) && ends_in(text, b)),
{
    if ends_in(text, a) && ends_in(text, b) {
        let x = text.subrange(text.len() - a.len(), text.len() as int);
        let y = text.subrange(text.len() - b.len(), text.len() as int);
        assert(x[a.len() - back] == y[b.len() - back]);
    }
}

/// Which channel of a joint a name stands for, its end says, and nothing else
/// does. A name with another end stands for none.
pub proof fn law_ends_of_names_tell_joint_channels(name: Seq<char>, j: usize)
    requires
        joint_index(name) == Some(j),
    ensures
        channel(name) == Some(Channel::MotorTemp(j)) <==> exists|front: Seq<char>|
            name == #[trigger] (front + "/motor_temp"@),
        channel(name) == Some(Channel::DriverTemp(j)) <==> exists|front: Seq<char>|
            name == #[trigger] (front + "/driver_temp"@),
        channel(name) == Some(Channel::Power(j)) <==> exists|front: Seq<char>|
            name == #[trigger] (front + "/voltage"@),
        channel(name) == Some(Channel::JointError(j)) <==> exists|front: Seq<char>|
            name == #[trigger] (front + "/error"@),
        channel(name) == Some(Channel::JointEnabled(j)) <==> exists|front: Seq<char>|
            name == #[trigger] (front + "/enabled"@),
        channel(name) == Some(Channel::JointCommunication(j)) <==> exists|front: Seq<char>|
            name == #[trigger] (front + "/communication_ok"@),
        channel(name) matches Some(c) ==> {
            ||| c == Channel::MotorTemp(j)
            ||| c == Channel::DriverTemp(j)
            ||| c == Channel::Power(j)
            ||| c == Channel::JointError(j)
            ||| c == Channel::JointEnabled(j)
            ||| c == Channel::JointCommunication(j)
        },
{
    reveal_strlit("/motor_temp");
    reveal_strlit("/driver_temp");
    reveal_strlit("/voltage");
    reveal_strlit("/error");
    reveal_strlit("/enabled");
    reveal_strlit("/communication_ok");
    law_ends_of_texts(name, "/motor_temp"@);
    law_ends_of_texts(name, "/driver_temp"@);
    law_ends_of_texts(name, "/voltage"@);
    law_ends_of_texts(name, "/error"@);
    law_ends_of_texts(name, "/enabled"@);
    law_ends_of_texts(name, "/communication_ok"@);
    lemma_one_end(name, "/motor_temp"@, "/driver_temp"@, 11);
    lemma_one_end(name, "/motor_temp"@, "/voltage"@, 1);
    lemma_one_end(name, "/motor_temp"@, "/error"@, 1);
    lemma_one_end(name, "/motor_temp"@, "/enabled"@, 1);
    lemma_one_end(name, "/motor_temp"@, "/communication_ok"@, 1);
    lemma_one_end(name, "/driver_temp"@, "/voltage"@, 1);
    lemma_one_end(name, "/driver_temp"@, "/error"@, 1);
    lemma_one_end(name, "/driver_temp"@, "/enabled"@, 1);
    lemma_one_end(name, "/driver_temp"@, "/communication_ok"@, 1);
    lemma_one_end(name, "/voltage"@, "/error"@, 1);
    lemma_one_end(name, "/voltage"@, "/enabled"@, 1);
    lemma_one_end(name, "/voltage"@, "/communication_ok"@, 1);
    lemma_one_end(name, "/error"@, "/enabled"@, 1);
    lemma_one_end(name, "/error"@, "/communication_ok"@, 1);
    lemma_one_end(name, "/enabled"@, "/communication_ok"@, 1);
}

/// A name that is about no joint stands for a channel of the arm or of the
/// gripper exactly where it is the name of that channel, letter for letter.
pub proof fn law_names_tell_arm_channels(name: Seq<char>)
    requires
        joint_index(name) is None,
    ensures
        channel(name) == Some(Channel::ArmState) <==> name == "body/arm/state"@,
        channel(name) == Some(Channel::ArmError) <==> name == "body/arm/error"@,
        channel(name) == Some(Channel::GripperError) <==> name == "body/arm/gripper/error"@,
        channel(name) == Some(Channel::GripperEnabled) <==> name == "body/arm/gripper/enabled"@,
        channel(name) == Some(Channel::GripperHomed) <==> name == "body/arm/gripper/homed"@,
        channel(name) == Some(Channel::GripperOpening) <==> name == "body/arm/gripper/opening_m"@,
        channel(name) matches Some(c) ==> {
            ||| c == Channel::ArmState
            ||| c == Channel::ArmError
            ||| c == Channel::GripperError
            ||| c == Channel::GripperEnabled
            ||| c == Channel::GripperHomed
            ||| c == Channel::GripperOpening
        },
{
    reveal_strlit("body/arm/state");
    reveal_strlit("body/arm/error");
    reveal_strlit("body/arm/gripper/error");
    reveal_strlit("body/arm/gripper/enabled");
    reveal_strlit("body/arm/gripper/homed");
    reveal_strlit("body/arm/gripper/opening_m");
    assert("body/arm/state"@[9] != "body/arm/error"@[9]);
    assert("body/arm/gripper/error"@[17] != "body/arm/gripper/homed"@[17]);
}

/// Is this a component that is present, online and active (4), of unknown health
/// (4), without serial number and detail, and otherwise as described?
pub open spec fn described(
    item: ComponentView,
    id: Seq<char>,
    parent_id: Seq<char>,
    kind: u32,
    name: Seq<char>,
    frame_id: Seq<char>,
    model: Seq<char>,
) -> bool {
    &&& item.id == id
    &&& item.parent_id == parent_id
    &&& item.kind == kind
    &&& item.name == name
    &&& item.frame_id == frame_id
    &&& item.model == model
    &&& item.serial.len() == 0
    &&& item.health == 4
    &&& item.operational_state == 4
    &&& item.present
    &&& item.online
    &&& item.detail.len() == 0
}

/// A component is made as it is described, and a value keeps its number and its
/// unit and is valid (0).
pub proof fn law_parts_are_made_as_described(
    id: Seq<char>,
    parent_id: Seq<char>,
    kind: u32,
    name: Seq<char>,
    frame_id: Seq<char>,
    model: Seq<char>,
    value: Real64,
    unit: Seq<char>,
)
    ensures
        described(
            component_view(id, parent_id, kind, name, frame_id, model),
            id,
            parent_id,
            kind,
            name,
            frame_id,
            model,
        ),
        scalar_view(value, unit).value == value,
        scalar_view(value, unit).unit == unit,
        scalar_view(value, unit).quality == 0,
{
}

/// A single arm is described as a body (kind 1), an arm (2), six joints (4) and a
/// gripper (6), in this order. The joints are numbered from 1; they and the arm
/// are of the arm's model.
pub proof fn law_arm_is_described(arm_model: Seq<char>, n: nat)
    requires
        1 <= n <= 6,
    ensures
        components_of(arm_model).len() == 9,
        described(
            components_of(arm_model)[0],
            "body"@,
            ""@,
            1,
            "Piper Robot"@,
            "base_link"@,
            "piper"@,
        ),
        described(
            components_of(arm_model)[1],
            "body/arm"@,
            "body"@,
            2,
            "Piper arm"@,
            "arm_base_link"@,
            arm_model,
        ),
        described(
            components_of(arm_model)[n as int + 1],
            "body/arm/joint_"@ + decimal(n),
            "body/arm"@,
            4,
            "joint_"@ + decimal(n),
            "joint_"@ + decimal(n),
            arm_model,
        ),
        described(
            components_of(arm_model)[8],
            "body/arm/gripper"@,
            "body/arm"@,
            6,
            "gripper"@,
            "gripper_base"@,
            "piper_gripper"@,
        ),
{
}

/// Is `published` what is published of a measurement in double precision: the
/// measurement itself as a valid value, unless it is absent, negative or no
/// number?
pub open spec fn publishes_measured(
    published: Option<ScalarView>,
    value: Option<Real64>,
    unit: Seq<char>,
) -> bool {
    &&& published is Some <==> (value matches Some(v) && (v.bits <= 0x7FF0_0000_0000_0000 || v.bits
        == 0x8000_0000_0000_0000))
    &&& published matches Some(scalar) ==> {
        &&& Some(scalar.value) == value
        &&& scalar.unit == unit
        &&& scalar.quality == 0
    }
}

/// Is `published` the value whose encoding is `bits`, with this unit and valid?
pub open spec fn publishes_value(
    published: Option<ScalarView>,
    bits: u64,
    unit: Seq<char>,
) -> bool {
    published matches Some(scalar) && scalar.value.bits == bits && scalar.unit == unit
        && scalar.quality == 0
}

/// The actuators of an arm: one for each joint, in their order, with the
/// measurements, the flags and the error code of that joint, and the gripper
/// last, with its own; it communicates where all joints do.
pub proof fn law_actuators_show_the_arm(arm: ArmReadoutView, j: int)
    requires
        0 <= j < arm.joints.len(),
    ensures
        actuators_of(arm).len() == arm.joints.len() + 1,
        ({
            let actuator = actuators_of(arm)[j];
            let joint = arm.joints[j];
            &&& actuator.component_id == "body/arm/joint_"@ + decimal((j + 1) as nat)
            &&& actuator.joint_name == "joint_"@ + decimal((j + 1) as nat)
            &&& publishes_value(actuator.position, 0, "rad"@)
            &&& publishes_value(actuator.velocity, 0, "rad/s"@)
            &&& publishes_value(actuator.effort, 0, "Nm"@)
            &&& publishes_measured(actuator.current, joint.current, "A"@)
            &&& publishes_measured(actuator.voltage, joint.voltage, "V"@)
            &&& publishes_measured(actuator.motor_temp, joint.motor_temp, "degC"@)
            &&& publishes_measured(actuator.driver_temp, joint.driver_temp, "degC"@)
            &&& actuator.torque_enabled == joint.enabled
            &&& actuator.communication_ok == joint.communication
            &&& !actuator.brake_engaged
            &&& actuator.vendor_mode == 0
            &&& actuator.vendor_error_code == joint.error
            &&& actuator.status_flags == joint.error
        }),
        ({
            let gripper = actuators_of(arm)[arm.joints.len() as int];
            &&& gripper.component_id == "body/arm/gripper"@
            &&& gripper.joint_name == "gripper"@
            &&& publishes_value(gripper.position, arm.gripper_opening_m.bits, "m"@)
            &&& publishes_value(gripper.velocity, 0, "m/s"@)
            &&& gripper.effort is None
            &&& gripper.current is None
            &&& gripper.voltage is None
            &&& gripper.motor_temp is None
            &&& gripper.driver_temp is None
            &&& gripper.torque_enabled == arm.gripper_enabled
            &&& gripper.communication_ok <==> forall|k: int|
                0 <= k < arm.joints.len() ==> (#[trigger] arm.joints[k]).communication
            &&& !gripper.brake_engaged
            &&& gripper.vendor_mode == (if arm.gripper_homed {
                1u32
            } else {
                0u32
            })
            &&& gripper.vendor_error_code == arm.gripper_error
            &&& gripper.status_flags == arm.gripper_error
        }),
{
    let joint = arm.joints[j];
    lemma_measured(joint.current, "A"@);
    lemma_measured(joint.voltage, "V"@);
    lemma_measured(joint.motor_temp, "degC"@);
    lemma_measured(joint.driver_temp, "degC"@);
}

/// A measurement is published as it should be.
proof fn lemma_measured(value: Option<Real64>, unit: Seq<char>)
    ensures
        publishes_measured(measured(value, unit), value, unit),
{
    if let Some(v) = value {
        law_zero_is_the_threshold(v);
    }
}

/// Is `published` what is published of a single-precision value that was read:
/// the same number in double precision as a valid value, unless nothing was
/// read, or something negative, or no number?
pub open spec fn publishes_read(
    published: Option<ScalarView>,
    value: Option<Real32>,
    unit: Seq<char>,
) -> bool {
    &&& published is Some <==> (value matches Some(x) && (x.bits <= 0x7F80_0000 || x.bits
        == 0x8000_0000))
    &&& published matches Some(scalar) ==> {
        &&& value matches Some(x) && scalar.value == x.widened()
        &&& scalar.unit == unit
        &&& scalar.quality == 0
    }
}

/// What is published of a value that was read.
proof fn lemma_read_measured(value: Option<Real32>, unit: Seq<char>)
    ensures
        value matches Some(x) ==> publishes_read(measured(Some(x.widened()), unit), value, unit),
        value is None ==> publishes_read(measured(None, unit), value, unit),
{
    if let Some(x) = value {
        law_widening_keeps_the_threshold(x);
    }
}

/// The actuator of a joint shows what was read last for that joint: its torque
/// is enabled and it communicates exactly where the last reading of that channel
/// is at least one half; the error code is the last one, cut off; the
/// measurements are those that were read last, as the same numbers.
pub proof fn law_joint_actuators_show_the_readings(
    readings: Seq<ReadingView>,
    body_id: Seq<char>,
    arm_model: Seq<char>,
    seq: u64,
    now_ns: i64,
    j: usize,
)
    requires
        j < 6,
    ensures
        ({
            let actuator = arm_snapshot(readings, body_id, arm_model, seq, now_ns).actuators[j
                as int];
            let motor = latest(readings, Channel::MotorTemp(j));
            let driver = latest(readings, Channel::DriverTemp(j));
            let power = latest(readings, Channel::Power(j));
            let error = latest(readings, Channel::JointError(j));
            &&& actuator.component_id == "body/arm/joint_"@ + decimal((j + 1) as nat)
            &&& actuator.joint_name == "joint_"@ + decimal((j + 1) as nat)
            &&& actuator.torque_enabled <==> (latest(readings, Channel::JointEnabled(j)) matches Some(
                r,
            ) && 0x3F00_0000 <= r.current_a.bits <= 0x7F80_0000)
            &&& actuator.communication_ok <==> (latest(
                readings,
                Channel::JointCommunication(j),
            ) matches Some(r) && 0x3F00_0000 <= r.current_a.bits <= 0x7F80_0000)
            &&& error matches Some(r) ==> actuator.vendor_error_code == r.current_a.spec_to_u32()
            &&& error is None ==> actuator.vendor_error_code == 0
            &&& actuator.status_flags == actuator.vendor_error_code
            &&& actuator.vendor_mode == 0
            &&& !actuator.brake_engaged
            &&& publishes_read(
                actuator.motor_temp,
                if motor is Some {
                    Some(motor->0.temp_c)
                } else {
                    None
                },
                "degC"@,
            )
            &&& publishes_read(
                actuator.driver_temp,
                if driver is Some {
                    Some(driver->0.temp_c)
                } else {
                    None
                },
                "degC"@,
            )
            &&& publishes_read(
                actuator.voltage,
                if power is Some {
                    Some(power->0.voltage)
                } else {
                    None
                },
                "V"@,
            )
            &&& publishes_read(
                actuator.current,
                if power is Some {
                    Some(power->0.current_a)
                } else {
                    None
                },
                "A"@,
            )
            &&& publishes_value(actuator.position, 0, "rad"@)
            &&& publishes_value(actuator.velocity, 0, "rad/s"@)
            &&& publishes_value(actuator.effort, 0, "Nm"@)
        }),
{
    law_joints_are_read(readings, j);
    law_actuators_show_the_arm(readout(readings), j as int);
    if let Some(r) = latest(readings, Channel::JointEnabled(j)) {
        law_half_is_the_threshold(r.current_a);
    }
    if let Some(r) = latest(readings, Channel::JointCommunication(j)) {
        law_half_is_the_threshold(r.current_a);
    }
    lemma_read_measured(None, "degC"@);
    lemma_read_measured(None, "V"@);
    lemma_read_measured(None, "A"@);
    if let Some(r) = latest(readings, Channel::MotorTemp(j)) {
        lemma_read_measured(Some(r.temp_c), "degC"@);
    }
    if let Some(r) = latest(readings, Channel::DriverTemp(j)) {
        lemma_read_measured(Some(r.temp_c), "degC"@);
    }
    if let Some(r) = latest(readings, Channel::Power(j)) {
        lemma_read_measured(Some(r.voltage), "V"@);
        lemma_read_measured(Some(r.current_a), "A"@);
    }
}

/// The actuator of the gripper, which comes after those of the joints, shows what
/// was read last for the gripper, and communicates exactly where the last
/// reading says so of all six joints.
pub proof fn law_gripper_actuator_shows_the_readings(
    readings: Seq<ReadingView>,
    body_id: Seq<char>,
    arm_model: Seq<char>,
    seq: u64,
    now_ns: i64,
)
    ensures
        arm_snapshot(readings, body_id, arm_model, seq, now_ns).actuators.len() == 7,
        ({
            let gripper = arm_snapshot(readings, body_id, arm_model, seq, now_ns).actuators[6];
            let error = latest(readings, Channel::GripperError);
            let opening = latest(readings, Channel::GripperOpening);
            &&& gripper.component_id == "body/arm/gripper"@
            &&& gripper.joint_name == "gripper"@
            &&& gripper.torque_enabled <==> (latest(
                readings,
                Channel::GripperEnabled,
            ) matches Some(r) && 0x3F00_0000 <= r.current_a.bits <= 0x7F80_0000)
            &&& gripper.vendor_mode == 1 <==> (latest(readings, Channel::GripperHomed) matches Some(
                r,
            ) && 0x3F00_0000 <= r.current_a.bits <= 0x7F80_0000)
            &&& gripper.vendor_mode <= 1
            &&& gripper.communication_ok <==> forall|j: usize|
                j < 6 ==> (#[trigger] latest(
                    readings,
                    Channel::JointCommunication(j),
                ) matches Some(r) && 0x3F00_0000 <= r.current_a.bits <= 0x7F80_0000)
            &&& error matches Some(r) ==> gripper.vendor_error_code == r.current_a.spec_to_u32()
            &&& error is None ==> gripper.vendor_error_code == 0
            &&& gripper.status_flags == gripper.vendor_error_code
            &&& !gripper.brake_engaged
            &&& opening matches Some(r) ==> publishes_value(
                gripper.position,
                r.current_a.widened().bits,
                "m"@,
            )
            &&& opening is None ==> publishes_value(gripper.position, 0, "m"@)
            &&& publishes_value(gripper.velocity, 0, "m/s"@)
            &&& gripper.effort is None
            &&& gripper.current is None
            &&& gripper.voltage is None
            &&& gripper.motor_temp is None
            &&& gripper.driver_temp is None
        }),
{
    let arm = readout(readings);
    law_joints_are_read(readings, 0);
    law_arm_and_gripper_are_read(readings);
    law_actuators_show_the_arm(arm, 0);
    if let Some(r) = latest(readings, Channel::GripperEnabled) {
        law_half_is_the_threshold(r.current_a);
    }
    if let Some(r) = latest(readings, Channel::GripperHomed) {
        law_half_is_the_threshold(r.current_a);
    }
    lemma_all_joints_on(readings);
}

/// All joints communicate, or are enabled, exactly where the last reading says
/// so of each.
proof fn lemma_all_joints_on(readings: Seq<ReadingView>)
    ensures
        readout(readings).joints.len() == 6,
        (forall|k: int| 0 <= k < 6 ==> (#[trigger] readout(readings).joints[k]).communication)
            <==> forall|j: usize|
            j < 6 ==> (#[trigger] latest(readings, Channel::JointCommunication(j)) matches Some(r)
                && 0x3F00_0000 <= r.current_a.bits <= 0x7F80_0000),
        (forall|k: int| 0 <= k < 6 ==> (#[trigger] readout(readings).joints[k]).enabled)
            <==> forall|j: usize|
            j < 6 ==> (#[trigger] latest(readings, Channel::JointEnabled(j)) matches Some(r)
                && 0x3F00_0000 <= r.current_a.bits <= 0x7F80_0000),
{
    let joints = readout(readings).joints;
    assert forall|j: usize| j < 6 implies joints[j as int].communication == (#[trigger] latest(
        readings,
        Channel::JointCommunication(j),
    ) matches Some(r) && 0x3F00_0000 <= r.current_a.bits <= 0x7F80_0000) by {
        law_joints_are_read(readings, j);
        if let Some(r) = latest(readings, Channel::JointCommunication(j)) {
            law_half_is_the_threshold(r.current_a);
        }
    }
    assert forall|j: usize| j < 6 implies joints[j as int].enabled == (#[trigger] latest(
        readings,
        Channel::JointEnabled(j),
    ) matches Some(r) && 0x3F00_0000 <= r.current_a.bits <= 0x7F80_0000) by {
        law_joints_are_read(readings, j);
        if let Some(r) = latest(readings, Channel::JointEnabled(j)) {
            law_half_is_the_threshold(r.current_a);
        }
    }
    assert forall|k: int| 0 <= k < 6 implies (#[trigger] joints[k]).communication == (latest(
        readings,
        Channel::JointCommunication(k as usize),
    ) matches Some(r) && 0x3F00_0000 <= r.current_a.bits <= 0x7F80_0000) by {}
    assert forall|k: int| 0 <= k < 6 implies (#[trigger] joints[k]).enabled == (latest(
        readings,
        Channel::JointEnabled(k as usize),
    ) matches Some(r) && 0x3F00_0000 <= r.current_a.bits <= 0x7F80_0000) by {}
}

/// What an arm may do: it may move where its state is normal (1) and every joint
/// communicates, and it may have motor power where it may move and every joint
/// is enabled. Its safety state is its own state, without detail.
pub proof fn law_safety_of_an_arm(arm: ArmReadoutView)
    ensures
        safety_of(arm).motion_allowed <==> arm.arm_state == 1 && forall|j: int|
            0 <= j < arm.joints.len() ==> (#[trigger] arm.joints[j]).communication,
        safety_of(arm).motor_power_allowed <==> safety_of(arm).motion_allowed && forall|j: int|
            0 <= j < arm.joints.len() ==> (#[trigger] arm.joints[j]).enabled,
        safety_of(arm).aggregate_state == arm.arm_state,
        safety_of(arm).detail.len() == 0,
{
}

/// What an arm may do, by what was read last: it may move exactly where its state
/// code is 0, or was not read, and all six joints communicate; it may have motor
/// power exactly where, besides, all six joints are enabled. State code 2 is an
/// emergency stop (4) and every other one a fault (5).
pub proof fn law_readings_decide_the_safety(
    readings: Seq<ReadingView>,
    body_id: Seq<char>,
    arm_model: Seq<char>,
    seq: u64,
    now_ns: i64,
)
    ensures
        arm_snapshot(readings, body_id, arm_model, seq, now_ns).safety matches Some(safety) && {
            let state = latest(readings, Channel::ArmState);
            let normal = state matches Some(r) ==> r.current_a.spec_to_u32() == 0;
            let communicate = forall|j: usize|
                j < 6 ==> (#[trigger] latest(
                    readings,
                    Channel::JointCommunication(j),
                ) matches Some(r) && 0x3F00_0000 <= r.current_a.bits <= 0x7F80_0000);
            let enabled = forall|j: usize|
                j < 6 ==> (#[trigger] latest(readings, Channel::JointEnabled(j)) matches Some(r)
                    && 0x3F00_0000 <= r.current_a.bits <= 0x7F80_0000);
            &&& safety.motion_allowed <==> normal && communicate
            &&& safety.motor_power_allowed <==> normal && communicate && enabled
            &&& safety.aggregate_state == 1 <==> normal
            &&& safety.aggregate_state == 4 <==> (state matches Some(r)
                && r.current_a.spec_to_u32() == 2)
            &&& safety.aggregate_state == 1 || safety.aggregate_state == 4
                || safety.aggregate_state == 5
            &&& safety.detail.len() == 0
        },
{
    law_arm_and_gripper_are_read(readings);
    law_safety_of_an_arm(readout(readings));
    lemma_all_joints_on(readings);
}

/// A joint that is not enabled, by what was read last, leaves the arm without
/// motor power, and one that does not communicate stops it.
pub proof fn law_every_joint_counts(
    readings: Seq<ReadingView>,
    body_id: Seq<char>,
    arm_model: Seq<char>,
    seq: u64,
    now_ns: i64,
    j: usize,
)
    requires
        j < 6,
    ensures
        arm_snapshot(readings, body_id, arm_model, seq, now_ns).safety matches Some(safety) && {
            &&& (latest(readings, Channel::JointEnabled(j)) matches Some(r)
                ==> !r.current_a.spec_at_least_half()) ==> !safety.motor_power_allowed
            &&& (latest(readings, Channel::JointCommunication(j)) matches Some(r)
                ==> !r.current_a.spec_at_least_half()) ==> !safety.motion_allowed
                && !safety.motor_power_allowed
        },
{
    law_readings_decide_the_safety(readings, body_id, arm_model, seq, now_ns);
    if let Some(r) = latest(readings, Channel::JointEnabled(j)) {
        law_half_is_the_threshold(r.current_a);
    }
    if let Some(r) = latest(readings, Channel::JointCommunication(j)) {
        law_half_is_the_threshold(r.current_a);
    }
}

/// The snapshot of an arm carries schema version 1, the body's id, the number and
/// the time that it was given, and may be used for 1500 ms. It lists the
/// components of the arm, and no power sources, safety endpoints or metrics.
pub proof fn law_arm_snapshot_is_labelled(
    readings: Seq<ReadingView>,
    body_id: Seq<char>,
    arm_model: Seq<char>,
    seq: u64,
    now_ns: i64,
)
    ensures
        ({
            let snapshot = arm_snapshot(readings, body_id, arm_model, seq, now_ns);
            &&& snapshot.schema_version == 1
            &&& snapshot.body_id == body_id
            &&& snapshot.seq == seq
            &&& snapshot.source_ts_ns == now_ns
            &&& snapshot.soma_ts_ns == now_ns
            &&& snapshot.ttl_ms == 1500
            &&& snapshot.components == components_of(arm_model)
            &&& snapshot.actuators == actuators_of(readout(readings))
            &&& snapshot.faults == faults_of(readout(readings), now_ns)
            &&& snapshot.safety == Some(safety_of(readout(readings)))
            &&& snapshot.power_sources.len() == 0
            &&& snapshot.safety_endpoints.len() == 0
            &&& snapshot.metrics.len() == 0
        }),
{
}

/// The snapshot of a body of which no arm is known: nothing but the body, which
/// may not move and is in the fault state (5).
pub proof fn law_unknown_body_is_labelled(
    body_id: Seq<char>,
    arm_model: Seq<char>,
    seq: u64,
    now_ns: i64,
)
    ensures
        ({
            let snapshot = unknown_snapshot(body_id, arm_model, seq, now_ns);
            &&& snapshot.schema_version == 1
            &&& snapshot.body_id == body_id
            &&& snapshot.seq == seq
            &&& snapshot.source_ts_ns == now_ns
            &&& snapshot.soma_ts_ns == now_ns
            &&& snapshot.ttl_ms == 1500
            &&& snapshot.components.len() == 1
            &&& described(
                snapshot.components[0],
                "body"@,
                ""@,
                1,
                "Piper Robot"@,
                "base_link"@,
                arm_model,
            )
            &&& snapshot.safety matches Some(safety) && !safety.motion_allowed
                && !safety.motor_power_allowed && safety.aggregate_state == 5 && safety.detail
                == "no health primitive connected"@
            &&& snapshot.actuators.len() == 0
            &&& snapshot.faults.len() == 0
            &&& snapshot.power_sources.len() == 0
            &&& snapshot.safety_endpoints.len() == 0
            &&& snapshot.metrics.len() == 0
        }),
{
}

/// The error code of part `rank` of an arm: 0 is the controller, a joint has its
/// number, counted from 1, and the gripper comes after the joints.
pub open spec fn error_of(arm: ArmReadoutView, rank: int) -> u32 {
    if rank == 0 {
        arm.arm_error
    } else if rank <= arm.joints.len() {
        arm.joints[rank - 1].error
    } else {
        arm.gripper_error
    }
}

/// Is `fault` an active error (severity 2) of part `rank` of an arm that can be
/// cleared, carries the part's code as a number and as a text, and is stamped
/// with `now_ns`?
pub open spec fn reports_error(
    fault: FaultView,
    arm: ArmReadoutView,
    rank: int,
    now_ns: i64,
) -> bool {
    let code = error_of(arm, rank);
    let joints = arm.joints.len();
    &&& fault.severity == 2
    &&& fault.active
    &&& fault.clearable
    &&& fault.onset_ts_ns == now_ns
    &&& fault.vendor_code == code
    &&& fault.attributes.len() == 0
    &&& fault.vendor_raw_json.len() == 0
    &&& rank == 0 ==> {
        &&& fault.component_id == "body/arm"@
        &&& fault.fault_id == "piper_controller_fault"@
        &&& fault.vendor_code_text == "0x"@ + hexadecimal(code as nat)
        &&& fault.message == "Piper controller error_code="@ + ("0x"@ + hexadecimal(code as nat))
    }
    &&& 1 <= rank <= joints ==> {
        &&& fault.component_id == "body/arm/joint_"@ + decimal(rank as nat)
        &&& fault.fault_id == "piper_foc_fault"@
        &&& fault.vendor_code_text == "0x"@ + hexadecimal_padded(code as nat)
        &&& fault.message == "joint_"@ + decimal(rank as nat) + " foc_status="@ + ("0x"@
            + hexadecimal_padded(code as nat))
    }
    &&& rank > joints ==> {
        &&& fault.component_id == "body/arm/gripper"@
        &&& fault.fault_id == "piper_gripper_fault"@
        &&& fault.vendor_code_text == "0x"@ + hexadecimal_padded(code as nat)
        &&& fault.message == "gripper status="@ + ("0x"@ + hexadecimal_padded(code as nat))
    }
}

/// Are `faults` those of the parts `ranks` of an arm, one by one and in the order
/// of the parts, and are these all the parts from `first` to `last` with an
/// error?
pub open spec fn ranked(
    faults: Seq<FaultView>,
    ranks: Seq<int>,
    arm: ArmReadoutView,
    first: int,
    last: int,
    now_ns: i64,
) -> bool {
    &&& ranks.len() == faults.len()
    &&& forall|i: int|
        #![trigger faults[i]]
        #![trigger ranks[i]]
        0 <= i < faults.len() ==> {
            &&& first <= ranks[i] <= last
            &&& error_of(arm, ranks[i]) != 0
            &&& reports_error(faults[i], arm, ranks[i], now_ns)
        }
    &&& forall|i: int, j: int|
        0 <= i < j < faults.len() ==> #[trigger] ranks[i] < #[trigger] ranks[j]
    &&& forall|rank: int|
        first <= rank <= last && #[trigger] error_of(arm, rank) != 0 ==> ranks.contains(rank)
}

/// Faults of parts that follow one another are put together.
proof fn lemma_ranked_append(
    a: Seq<FaultView>,
    ranks_a: Seq<int>,
    b: Seq<FaultView>,
    ranks_b: Seq<int>,
    arm: ArmReadoutView,
    first: int,
    middle: int,
    last: int,
    now_ns: i64,
)
    requires
        first <= middle <= last,
        ranked(a, ranks_a, arm, first, middle, now_ns),
        ranked(b, ranks_b, arm, middle + 1, last, now_ns),
    ensures
        ranked(a + b, ranks_a + ranks_b, arm, first, last, now_ns),
{
    let all = a + b;
    let ranks = ranks_a + ranks_b;
    assert forall|i: int| 0 <= i < all.len() implies {
        &&& first <= #[trigger] ranks[i] <= last
        &&& error_of(arm, ranks[i]) != 0
        &&& reports_error(#[trigger] all[i], arm, ranks[i], now_ns)
    } by {
        if i < a.len() {
            assert(all[i] == a[i] && ranks[i] == ranks_a[i]);
        } else {
            assert(all[i] == b[i - a.len()] && ranks[i] == ranks_b[i - a.len()]);
        }
    }
    assert forall|i: int, j: int| 0 <= i < j < all.len() implies #[trigger] ranks[i]
        < #[trigger] ranks[j] by {
        if j < a.len() {
            assert(ranks_a[i] < ranks_a[j]);
        } else if i >= a.len() {
            assert(ranks_b[i - a.len()] < ranks_b[j - a.len()]);
        } else {
            assert(ranks[i] == ranks_a[i] && ranks[j] == ranks_b[j - a.len()]);
        }
    }
    assert forall|rank: int|
        first <= rank <= last && #[trigger] error_of(arm, rank) != 0 implies ranks.contains(rank) by {
        if rank <= middle {
            let i = choose|i: int| 0 <= i < ranks_a.len() && ranks_a[i] == rank;
            assert(ranks[i] == rank);
        } else {
            let i = choose|i: int| 0 <= i < ranks_b.len() && ranks_b[i] == rank;
            assert(ranks[ranks_a.len() + i] == rank);
        }
    }
}

/// The fault of one part, where it has an error.
proof fn lemma_ranked_one(
    faults: Seq<FaultView>,
    arm: ArmReadoutView,
    rank: int,
    now_ns: i64,
) -> (ranks: Seq<int>)
    requires
        error_of(arm, rank) == 0 ==> faults.len() == 0,
        error_of(arm, rank) != 0 ==> faults.len() == 1 && reports_error(
            faults[0],
            arm,
            rank,
            now_ns,
        ),
    ensures
        ranked(faults, ranks, arm, rank, rank, now_ns),
{
    if error_of(arm, rank) == 0 {
        Seq::empty()
    } else {
        let ranks = seq![rank];
        assert(ranks[0] == rank);
        assert(ranks.contains(rank));
        ranks
    }
}

/// The faults of the first `n` joints.
proof fn lemma_ranked_joints(arm: ArmReadoutView, n: nat, now_ns: i64) -> (ranks: Seq<int>)
    requires
        n <= arm.joints.len(),
    ensures
        ranked(joint_faults(arm.joints, n, now_ns), ranks, arm, 1, n as int, now_ns),
    decreases n,
{
    if n == 0 {
        Seq::empty()
    } else {
        let m = (n - 1) as nat;
        let earlier = joint_faults(arm.joints, m, now_ns);
        let before = lemma_ranked_joints(arm, m, now_ns);
        let code = arm.joints[m as int].error;
        let one = if code != 0 {
            seq![joint_fault(n, code, now_ns)]
        } else {
            Seq::empty()
        };
        let rank = lemma_ranked_one(one, arm, n as int, now_ns);
        assert(joint_faults(arm.joints, n, now_ns) =~= earlier + one);
        if m == 0 {
            assert(earlier + one =~= one);
            rank
        } else {
            lemma_ranked_append(
                earlier,
                before,
                one,
                rank,
                arm,
                1,
                m as int,
                n as int,
                now_ns,
            );
            before + rank
        }
    }
}

/// The faults of an arm are those of its parts with an error, each once, in the
/// order of controller, joints and gripper, and nothing else.
pub proof fn law_faults_are_the_errors_of_the_parts(arm: ArmReadoutView, now_ns: i64)
    ensures
        exists|ranks: Seq<int>|
            #[trigger] ranked(
                faults_of(arm, now_ns),
                ranks,
                arm,
                0,
                arm.joints.len() as int + 1,
                now_ns,
            ),
{
    let n = arm.joints.len();
    let of_controller = if arm.arm_error != 0 {
        seq![arm_fault(arm.arm_error, now_ns)]
    } else {
        Seq::empty()
    };
    let of_joints = joint_faults(arm.joints, n, now_ns);
    let of_gripper = if arm.gripper_error != 0 {
        seq![gripper_fault(arm.gripper_error, now_ns)]
    } else {
        Seq::empty()
    };
    let a = lemma_ranked_one(of_controller, arm, 0, now_ns);
    let b = lemma_ranked_joints(arm, n, now_ns);
    let c = lemma_ranked_one(of_gripper, arm, n as int + 1, now_ns);
    if n > 0 {
        lemma_ranked_append(of_controller, a, of_joints, b, arm, 0, 0, n as int, now_ns);
        lemma_ranked_append(
            of_controller + of_joints,
            a + b,
            of_gripper,
            c,
            arm,
            0,
            n as int,
            n as int + 1,
            now_ns,
        );
        assert(ranked(faults_of(arm, now_ns), a + b + c, arm, 0, n as int + 1, now_ns));
    } else {
        lemma_ranked_append(of_controller, a, of_gripper, c, arm, 0, 0, 1, now_ns);
        assert(of_controller + of_joints =~= of_controller);
        assert(ranked(faults_of(arm, now_ns), a + c, arm, 0, n as int + 1, now_ns));
    }
}

/// The code that the last reading of a channel carries, cut off to a whole
/// number; 0 where there is none.
pub open spec fn code_read(readings: Seq<ReadingView>, c: Channel) -> u32 {
    match latest(readings, c) {
        Some(r) => r.current_a.spec_to_u32(),
        None => 0,
    }
}

/// An arm has a fault of its controller, of the joint with number `n`, counted
/// from 1, or of its gripper exactly where the last error reading of that part
/// carries a code other than 0, and the fault carries that code. No part has
/// two.
#[verifier::spinoff_prover]
#[verifier::rlimit(60)]
pub proof fn law_faults_show_the_readings(
    readings: Seq<ReadingView>,
    body_id: Seq<char>,
    arm_model: Seq<char>,
    seq: u64,
    now_ns: i64,
    n: usize,
)
    requires
        1 <= n <= 6,
    ensures
        ({
            let faults = arm_snapshot(readings, body_id, arm_model, seq, now_ns).faults;
            let of_arm = code_read(readings, Channel::ArmError);
            let of_joint = code_read(readings, Channel::JointError((n - 1) as usize));
            let of_gripper = code_read(readings, Channel::GripperError);
            let joint = "body/arm/joint_"@ + decimal(n as nat);
            &&& of_arm != 0 <==> exists|i: int|
                0 <= i < faults.len() && (#[trigger] faults[i]).component_id == "body/arm"@
            &&& of_joint != 0 <==> exists|i: int|
                0 <= i < faults.len() && (#[trigger] faults[i]).component_id == joint
            &&& of_gripper != 0 <==> exists|i: int|
                0 <= i < faults.len() && (#[trigger] faults[i]).component_id == "body/arm/gripper"@
            &&& forall|i: int|
                0 <= i < faults.len() ==> {
                    let fault = #[trigger] faults[i];
                    &&& fault.active
                    &&& fault.clearable
                    &&& fault.severity == 2
                    &&& fault.component_id == "body/arm"@ ==> fault.vendor_code == of_arm
                        && fault.fault_id == "piper_controller_fault"@
                    &&& fault.component_id == joint ==> fault.vendor_code == of_joint
                        && fault.fault_id == "piper_foc_fault"@
                    &&& fault.component_id == "body/arm/gripper"@ ==> fault.vendor_code
                        == of_gripper && fault.fault_id == "piper_gripper_fault"@
                }
            &&& forall|i: int, j: int|
                0 <= i < j < faults.len() ==> (#[trigger] faults[i]).component_id != (
                #[trigger] faults[j]).component_id
        }),
{
    let arm = readout(readings);
    let faults = arm_snapshot(readings, body_id, arm_model, seq, now_ns).faults;
    law_joints_are_read(readings, (n - 1) as usize);
    law_arm_and_gripper_are_read(readings);
    law_fault_for_every_error(readings, now_ns, n as int);
    law_faults_are_the_errors_of_the_parts(arm, now_ns);
    let ranks = choose|ranks: Seq<int>| #[trigger] ranked(faults, ranks, arm, 0, 7, now_ns);
    let all = components_of(arm_model);
    law_arm_tree(arm_model);
    assert forall|i: int| 0 <= i < faults.len() implies (#[trigger] faults[i]).component_id
        == all[ranks[i] + 1].id by {
        if 1 <= ranks[i] <= 6 {
            law_arm_is_described(arm_model, ranks[i] as nat);
        } else {
            law_arm_is_described(arm_model, 1);
        }
    }
    law_arm_is_described(arm_model, n as nat);
    assert forall|i: int| 0 <= i < faults.len() implies ({
        let fault = #[trigger] faults[i];
        &&& fault.component_id == all[1].id ==> ranks[i] == 0
        &&& fault.component_id == all[n + 1].id ==> ranks[i] == n
        &&& fault.component_id == all[8].id ==> ranks[i] == 7
    }) by {
        let id = all[ranks[i] + 1].id;
        if ranks[i] != 0 {
            assert(all[1].id != id);
        }
        if ranks[i] < n {
            assert(id != all[n + 1].id);
        } else if ranks[i] > n {
            assert(all[n + 1].id != id);
        }
        if ranks[i] != 7 {
            assert(id != all[8].id);
        }
    }
    assert forall|i: int, j: int| 0 <= i < j < faults.len() implies (
    #[trigger] faults[i]).component_id != (#[trigger] faults[j]).component_id by {
        assert(ranks[i] < ranks[j]);
        assert(all[ranks[i] + 1].id != all[ranks[j] + 1].id);
    }
}

} // verus!
