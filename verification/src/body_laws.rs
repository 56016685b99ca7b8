//! What holds of the snapshot of the whole body.

use crate::arm_laws::{
    belongs, below_arm, described, law_actuators_show_the_arm, law_arm_is_described,
    law_arm_is_placed_on_its_side, law_arm_parts_are_components, law_arm_tree,
    law_last_readings_decide, lemma_below_arm_distinct, lemma_joint_frame, lemma_path_below_arm,
    lemma_placed_item, lists, placed_on, untimed, untimed_fault, untimed_faults,
};
use crate::codes::{SAFETY_ESTOP, SAFETY_FAULT, SAFETY_NORMAL};
use crate::merge::{
    all_actuators, all_components, all_endpoints, all_faults, any_reports, arm_id, below_body,
    body_snapshot, merged_safety, merged_snapshot, namespaced_actuator, namespaced_components,
    namespaced_fault, namespaced_frame, namespaced_path, parts_of, side_of, title_cased,
    unicode_uppercase, uppercase, PartView,
};
use crate::model::{ComponentView, FaultView};
use crate::providers::{
    entry_is, frames, law_frames_determine_the_listing, lemma_frame_of_entry, ordered, EntryView,
};
use crate::readout::{latest, law_joints_are_read, readout, Channel};
use crate::snapshot::{
    actuators_of, arm_snapshot, components_of, faults_of, safety_of, unknown_snapshot,
};
use crate::text::{
    decimal, law_ends_of_texts, law_first_occurrence_is_replaced, law_lower_case,
    law_nothing_else_is_replaced, law_prefixes_are_dropped, lowercased, occurs_at, occurs_in,
};
use vstd::prelude::*;

verus! {

/// Components that come in blocks of eight are found by block and place.
proof fn lemma_component_blocks(parts: Seq<PartView>)
    requires
        forall|k: int| 0 <= k < parts.len() ==> (#[trigger] parts[k]).components().len() == 8,
    ensures
        all_components(parts).len() == 8 * parts.len(),
        forall|j: int|
            0 <= j < all_components(parts).len() ==> #[trigger] all_components(parts)[j]
                == parts[j / 8].components()[j % 8],
    decreases parts.len(),
{
    if parts.len() > 0 {
        let fewer = parts.drop_last();
        assert forall|k: int| 0 <= k < fewer.len() implies (
        #[trigger] fewer[k]).components().len() == 8 by {
            assert(fewer[k] == parts[k]);
        }
        lemma_component_blocks(fewer);
        assert(parts[parts.len() - 1].components().len() == 8);
        assert forall|j: int| 0 <= j < all_components(parts).len() implies #[trigger] all_components(
            parts,
        )[j] == parts[j / 8].components()[j % 8] by {
            if j < 8 * fewer.len() {
                assert(all_components(parts)[j] == all_components(fewer)[j]);
                assert(fewer[j / 8] == parts[j / 8]);
            }
        }
    }
}

/// Actuators that come in blocks of seven are found by block and place.
proof fn lemma_actuator_blocks(parts: Seq<PartView>)
    requires
        forall|k: int| 0 <= k < parts.len() ==> (#[trigger] parts[k]).actuators().len() == 7,
    ensures
        all_actuators(parts).len() == 7 * parts.len(),
        forall|j: int|
            0 <= j < all_actuators(parts).len() ==> #[trigger] all_actuators(parts)[j]
                == parts[j / 7].actuators()[j % 7],
    decreases parts.len(),
{
    if parts.len() > 0 {
        let fewer = parts.drop_last();
        assert forall|k: int| 0 <= k < fewer.len() implies (
        #[trigger] fewer[k]).actuators().len() == 7 by {
            assert(fewer[k] == parts[k]);
        }
        lemma_actuator_blocks(fewer);
        assert(parts[parts.len() - 1].actuators().len() == 7);
        assert forall|j: int| 0 <= j < all_actuators(parts).len() implies #[trigger] all_actuators(
            parts,
        )[j] == parts[j / 7].actuators()[j % 7] by {
            if j < 7 * fewer.len() {
                assert(all_actuators(parts)[j] == all_actuators(fewer)[j]);
                assert(fewer[j / 7] == parts[j / 7]);
            }
        }
    }
}

/// Is `fault` one of those of provider `k`?
spec fn fault_from(parts: Seq<PartView>, k: int, i: int, fault: FaultView) -> bool {
    &&& 0 <= k < parts.len()
    &&& 0 <= i < parts[k].faults().len()
    &&& fault == parts[k].faults()[i]
}

/// Every fault of the body comes from a provider.
proof fn lemma_fault_origin(parts: Seq<PartView>, j: int)
    requires
        0 <= j < all_faults(parts).len(),
    ensures
        exists|k: int, i: int| fault_from(parts, k, i, all_faults(parts)[j]),
    decreases parts.len(),
{
    if parts.len() > 0 {
        let fewer = parts.drop_last();
        let fault = all_faults(parts)[j];
        if j < all_faults(fewer).len() {
            lemma_fault_origin(fewer, j);
            let (k, i) = choose|k: int, i: int| fault_from(fewer, k, i, all_faults(fewer)[j]);
            assert(fewer[k] == parts[k]);
            assert(fault_from(parts, k, i, fault));
        } else {
            assert(fault_from(parts, parts.len() - 1, j - all_faults(fewer).len(), fault));
        }
    }
}

/// The parts of a body are placed arms: eight components and seven actuators
/// each.
proof fn lemma_parts(
    entries: Seq<EntryView>,
    body_id: Seq<char>,
    arm_model: Seq<char>,
    seq: u64,
    frame_times: Seq<i64>,
)
    ensures
        forall|k: int|
            0 <= k < entries.len() ==> {
                let part = #[trigger] parts_of(entries, body_id, arm_model, seq, frame_times)[k];
                &&& part.components().len() == 8
                &&& part.actuators().len() == 7
            },
{
    let parts = parts_of(entries, body_id, arm_model, seq, frame_times);
    assert forall|k: int| 0 <= k < entries.len() implies ({
        let part = #[trigger] parts[k];
        &&& part.components().len() == 8
        &&& part.actuators().len() == 7
    }) by {
        law_arm_is_placed_on_its_side(parts[k].side(), arm_model);
        law_arm_parts_are_components(entries[k].state, body_id, arm_model, seq, frame_times[k]);
    }
}

/// A body has one component of its own and eight of each arm, and seven
/// actuators of each arm.
pub proof fn law_body_counts(
    entries: Seq<EntryView>,
    body_id: Seq<char>,
    arm_model: Seq<char>,
    seq: u64,
    now_ns: i64,
    frame_times: Seq<i64>,
)
    ensures
        body_snapshot(entries, body_id, arm_model, seq, now_ns, frame_times).components.len() == 1
            + 8 * entries.len(),
        body_snapshot(entries, body_id, arm_model, seq, now_ns, frame_times).actuators.len() == 7
            * entries.len(),
{
    if entries.len() > 0 {
        let parts = parts_of(entries, body_id, arm_model, seq, frame_times);
        lemma_parts(entries, body_id, arm_model, seq, frame_times);
        lemma_component_blocks(parts);
        lemma_actuator_blocks(parts);
    }
}

/// The component tree of the body: the body comes first and has no parent, the
/// arm of the provider at position `k` comes with its joints and gripper at the
/// places from `8 * k + 1` on, and each component is placed on the provider's
/// side, below one that is listed before it.
pub proof fn law_body_tree(
    entries: Seq<EntryView>,
    body_id: Seq<char>,
    arm_model: Seq<char>,
    seq: u64,
    now_ns: i64,
    frame_times: Seq<i64>,
)
    ensures
        body_snapshot(
            entries,
            body_id,
            arm_model,
            seq,
            now_ns,
            frame_times,
        ).components[0].id == "body"@,
        body_snapshot(
            entries,
            body_id,
            arm_model,
            seq,
            now_ns,
            frame_times,
        ).components[0].parent_id == ""@,
        forall|k: int, i: int|
            0 <= k < entries.len() && 1 <= i < 9 ==> #[trigger] placed_on(
                body_snapshot(
                    entries,
                    body_id,
                    arm_model,
                    seq,
                    now_ns,
                    frame_times,
                ).components[8 * k + i],
                components_of(arm_model)[i],
                i,
                side_of(entries[k].id),
            ),
        forall|j: int|
            1 <= j < body_snapshot(
                entries,
                body_id,
                arm_model,
                seq,
                now_ns,
                frame_times,
            ).components.len() ==> lists(
                body_snapshot(
                    entries,
                    body_id,
                    arm_model,
                    seq,
                    now_ns,
                    frame_times,
                ).components.take(j),
                (#[trigger] body_snapshot(
                    entries,
                    body_id,
                    arm_model,
                    seq,
                    now_ns,
                    frame_times,
                ).components[j]).parent_id,
            ),
{
    let all = body_snapshot(entries, body_id, arm_model, seq, now_ns, frame_times).components;
    law_body_counts(entries, body_id, arm_model, seq, now_ns, frame_times);
    if entries.len() > 0 {
        let parts = parts_of(entries, body_id, arm_model, seq, frame_times);
        lemma_parts(entries, body_id, arm_model, seq, frame_times);
        lemma_component_blocks(parts);
        assert forall|k: int, i: int| 0 <= k < entries.len() && 1 <= i < 9 implies #[trigger] placed_on(
            all[8 * k + i],
            components_of(arm_model)[i],
            i,
            side_of(entries[k].id),
        ) by {
            lemma_placed_at(entries, body_id, arm_model, seq, now_ns, frame_times, k, i);
        }
        assert forall|j: int| 1 <= j < all.len() implies lists(
            all.take(j),
            (#[trigger] all[j]).parent_id,
        ) by {
            let k = (j - 1) / 8;
            let i = (j - 1) % 8 + 1;
            lemma_placed_at(entries, body_id, arm_model, seq, now_ns, frame_times, k, i);
            lemma_placed_at(entries, body_id, arm_model, seq, now_ns, frame_times, k, 1);
            let arm = arm_id(side_of(entries[k].id));
            assert(arm + below_arm(1) =~= arm);
            if i == 1 {
                assert(all.take(j)[0].id == all[j].parent_id);
            } else {
                assert(all.take(j)[8 * k + 1].id == all[j].parent_id);
            }
        }
    }
}

/// Component `i` of the arm of provider `k` is placed on the provider's side.
proof fn lemma_placed_at(
    entries: Seq<EntryView>,
    body_id: Seq<char>,
    arm_model: Seq<char>,
    seq: u64,
    now_ns: i64,
    frame_times: Seq<i64>,
    k: int,
    i: int,
)
    requires
        0 <= k < entries.len(),
        1 <= i < 9,
    ensures
        placed_on(
            body_snapshot(
                entries,
                body_id,
                arm_model,
                seq,
                now_ns,
                frame_times,
            ).components[8 * k + i],
            components_of(arm_model)[i],
            i,
            side_of(entries[k].id),
        ),
        body_snapshot(
            entries,
            body_id,
            arm_model,
            seq,
            now_ns,
            frame_times,
        ).components[8 * k + i].id == namespaced_path(
            components_of(arm_model)[i].id,
            arm_id(side_of(entries[k].id)),
        ),
{
    let parts = parts_of(entries, body_id, arm_model, seq, frame_times);
    let all = body_snapshot(entries, body_id, arm_model, seq, now_ns, frame_times).components;
    let side = side_of(entries[k].id);
    lemma_parts(entries, body_id, arm_model, seq, frame_times);
    lemma_component_blocks(parts);
    let j = 8 * k + i - 1;
    assert(j / 8 == k && j % 8 == i - 1);
    assert(all[8 * k + i] == all_components(parts)[j]);
    assert(all_components(parts)[j] == parts[k].components()[i - 1]);
    law_arm_is_placed_on_its_side(side, arm_model);
    lemma_placed_item(side, arm_model, i);
}

/// What is listed on a single arm is, under its path on the side, listed in the
/// body.
proof fn lemma_listed_on_side(
    entries: Seq<EntryView>,
    body_id: Seq<char>,
    arm_model: Seq<char>,
    seq: u64,
    now_ns: i64,
    frame_times: Seq<i64>,
    k: int,
    id: Seq<char>,
)
    requires
        0 <= k < entries.len(),
        lists(components_of(arm_model), id),
    ensures
        lists(
            body_snapshot(entries, body_id, arm_model, seq, now_ns, frame_times).components,
            namespaced_path(id, arm_id(side_of(entries[k].id))),
        ),
{
    let all = body_snapshot(entries, body_id, arm_model, seq, now_ns, frame_times).components;
    let single = components_of(arm_model);
    law_arm_tree(arm_model);
    law_body_counts(entries, body_id, arm_model, seq, now_ns, frame_times);
    let i = choose|i: int| 0 <= i < single.len() && (#[trigger] single[i]).id == id;
    if i == 0 {
        assert(all[0].id == "body"@);
    } else {
        lemma_placed_at(entries, body_id, arm_model, seq, now_ns, frame_times, k, i);
        assert(all[8 * k + i].id == namespaced_path(id, arm_id(side_of(entries[k].id))));
    }
}

/// Every actuator and every fault of the body belongs to a component that is
/// listed.
pub proof fn law_body_parts_are_components(
    entries: Seq<EntryView>,
    body_id: Seq<char>,
    arm_model: Seq<char>,
    seq: u64,
    now_ns: i64,
    frame_times: Seq<i64>,
)
    ensures
        belongs(body_snapshot(entries, body_id, arm_model, seq, now_ns, frame_times)),
{
    let body = body_snapshot(entries, body_id, arm_model, seq, now_ns, frame_times);
    if entries.len() > 0 {
        let parts = parts_of(entries, body_id, arm_model, seq, frame_times);
        lemma_parts(entries, body_id, arm_model, seq, frame_times);
        lemma_actuator_blocks(parts);
        assert forall|j: int| 0 <= j < body.actuators.len() implies lists(
            body.components,
            (#[trigger] body.actuators[j]).component_id,
        ) by {
            let k = j / 7;
            let i = j % 7;
            law_arm_parts_are_components(
                entries[k].state,
                body_id,
                arm_model,
                seq,
                frame_times[k],
            );
            let single = parts[k].snapshot.actuators[i];
            assert(lists(components_of(arm_model), single.component_id));
            lemma_listed_on_side(
                entries,
                body_id,
                arm_model,
                seq,
                now_ns,
                frame_times,
                k,
                single.component_id,
            );
        }
        assert forall|j: int| 0 <= j < body.faults.len() implies lists(
            body.components,
            (#[trigger] body.faults[j]).component_id,
        ) by {
            lemma_fault_origin(parts, j);
            let fault = all_faults(parts)[j];
            let (k, i) = choose|k: int, i: int| fault_from(parts, k, i, fault);
            law_arm_parts_are_components(
                entries[k].state,
                body_id,
                arm_model,
                seq,
                frame_times[k],
            );
            let single = parts[k].snapshot.faults[i];
            assert(lists(components_of(arm_model), single.component_id));
            lemma_listed_on_side(
                entries,
                body_id,
                arm_model,
                seq,
                now_ns,
                frame_times,
                k,
                single.component_id,
            );
        }
    }
}

/// The actuators of the provider at position `k` come at the places from
/// `7 * k` on, as they are on a single arm but for the side in their component
/// and their name.
pub proof fn law_body_has_every_actuator(
    entries: Seq<EntryView>,
    body_id: Seq<char>,
    arm_model: Seq<char>,
    seq: u64,
    now_ns: i64,
    frame_times: Seq<i64>,
    k: int,
    i: int,
)
    requires
        0 <= k < entries.len(),
        0 <= i < 7,
    ensures
        body_snapshot(entries, body_id, arm_model, seq, now_ns, frame_times).actuators[7 * k + i]
            == namespaced_actuator(
            actuators_of(readout(entries[k].state))[i],
            side_of(entries[k].id),
        ),
{
    let parts = parts_of(entries, body_id, arm_model, seq, frame_times);
    lemma_parts(entries, body_id, arm_model, seq, frame_times);
    lemma_actuator_blocks(parts);
    let j = 7 * k + i;
    assert(j / 7 == k && j % 7 == i);
    assert(all_actuators(parts)[j] == parts[k].actuators()[i]);
    law_arm_parts_are_components(entries[k].state, body_id, arm_model, seq, frame_times[k]);
}

/// Every fault of every provider is one of the body, under the side of the
/// provider, and the body has no other.
pub proof fn law_body_has_every_fault(
    entries: Seq<EntryView>,
    body_id: Seq<char>,
    arm_model: Seq<char>,
    seq: u64,
    now_ns: i64,
    frame_times: Seq<i64>,
    fault: FaultView,
)
    requires
        entries.len() > 0,
    ensures
        body_snapshot(entries, body_id, arm_model, seq, now_ns, frame_times).faults.contains(fault)
            <==> exists|k: int, i: int|
            0 <= k < entries.len() && 0 <= i < faults_of(
                readout(entries[k].state),
                frame_times[k],
            ).len() && fault == namespaced_fault(
                #[trigger] faults_of(readout(entries[k].state), frame_times[k])[i],
                side_of(entries[k].id),
            ),
{
    let parts = parts_of(entries, body_id, arm_model, seq, frame_times);
    let all = all_faults(parts);
    if all.contains(fault) {
        let j = choose|j: int| 0 <= j < all.len() && all[j] == fault;
        lemma_fault_origin(parts, j);
        let (k, i) = choose|k: int, i: int| fault_from(parts, k, i, fault);
        assert(fault == namespaced_fault(
            faults_of(readout(entries[k].state), frame_times[k])[i],
            side_of(entries[k].id),
        ));
    }
    if exists|k: int, i: int|
        0 <= k < entries.len() && 0 <= i < faults_of(
            readout(entries[k].state),
            frame_times[k],
        ).len() && fault == namespaced_fault(
            #[trigger] faults_of(readout(entries[k].state), frame_times[k])[i],
            side_of(entries[k].id),
        ) {
        let (k, i) = choose|k: int, i: int|
            0 <= k < entries.len() && 0 <= i < faults_of(
                readout(entries[k].state),
                frame_times[k],
            ).len() && fault == namespaced_fault(
                #[trigger] faults_of(readout(entries[k].state), frame_times[k])[i],
                side_of(entries[k].id),
            );
        assert(fault_from(parts, k, i, fault));
        lemma_fault_is_kept(parts, k, i, fault);
    }
}

/// A fault of a provider is one of the body.
proof fn lemma_fault_is_kept(parts: Seq<PartView>, k: int, i: int, fault: FaultView)
    requires
        fault_from(parts, k, i, fault),
    ensures
        all_faults(parts).contains(fault),
    decreases parts.len(),
{
    let fewer = parts.drop_last();
    let all = all_faults(parts);
    if k < fewer.len() {
        assert(fewer[k] == parts[k]);
        lemma_fault_is_kept(fewer, k, i, fault);
        let j = choose|j: int| 0 <= j < all_faults(fewer).len() && all_faults(fewer)[j] == fault;
        assert(all[j] == fault);
    } else {
        assert(all[all_faults(fewer).len() + i] == fault);
    }
}

/// The ids on two different sides differ.
proof fn lemma_sides_apart(a: Seq<char>, b: Seq<char>, x: Seq<char>, y: Seq<char>)
    requires
        side_of(a) != side_of(b),
    ensures
        arm_id(side_of(a)) + x != arm_id(side_of(b)) + y,
{
    reveal_strlit("right");
    reveal_strlit("left");
    reveal_strlit("arm");
    reveal_strlit("body/");
    let p = arm_id(side_of(a)) + x;
    let q = arm_id(side_of(b)) + y;
    assert(p[5] == side_of(a)[0]);
    assert(q[5] == side_of(b)[0]);
}

/// Where the providers serve different sides, no two components of the body
/// have the same id.
pub proof fn law_ids_are_unique(
    entries: Seq<EntryView>,
    body_id: Seq<char>,
    arm_model: Seq<char>,
    seq: u64,
    now_ns: i64,
    frame_times: Seq<i64>,
)
    requires
        forall|a: int, b: int|
            0 <= a < b < entries.len() ==> side_of((#[trigger] entries[a]).id) != side_of(
                (#[trigger] entries[b]).id,
            ),
    ensures
        forall|a: int, b: int|
            0 <= a < b < body_snapshot(
                entries,
                body_id,
                arm_model,
                seq,
                now_ns,
                frame_times,
            ).components.len() ==> (#[trigger] body_snapshot(
                entries,
                body_id,
                arm_model,
                seq,
                now_ns,
                frame_times,
            ).components[a]).id != (#[trigger] body_snapshot(
                entries,
                body_id,
                arm_model,
                seq,
                now_ns,
                frame_times,
            ).components[b]).id,
{
    let all = body_snapshot(entries, body_id, arm_model, seq, now_ns, frame_times).components;
    law_body_counts(entries, body_id, arm_model, seq, now_ns, frame_times);
    assert forall|a: int, b: int| 0 <= a < b < all.len() implies (#[trigger] all[a]).id != (
    #[trigger] all[b]).id by {
        let kb = (b - 1) / 8;
        let ib = (b - 1) % 8 + 1;
        let side_b = side_of(entries[kb].id);
        lemma_placed_at(entries, body_id, arm_model, seq, now_ns, frame_times, kb, ib);
        assert(all[b].id == arm_id(side_b) + below_arm(ib));
        if a == 0 {
            assert(all[0].id == "body"@);
            reveal_strlit("body");
            reveal_strlit("body/");
            assert(all[b].id.len() > 4);
        } else {
            let ka = (a - 1) / 8;
            let ia = (a - 1) % 8 + 1;
            let side_a = side_of(entries[ka].id);
            lemma_placed_at(entries, body_id, arm_model, seq, now_ns, frame_times, ka, ia);
            assert(all[a].id == arm_id(side_a) + below_arm(ia));
            if ka == kb {
                lemma_below_arm_distinct(ia, ib);
                let n = arm_id(side_a).len() as int;
                assert(all[a].id.skip(n) =~= below_arm(ia));
                assert(all[b].id.skip(n) =~= below_arm(ib));
            } else {
                lemma_sides_apart(entries[ka].id, entries[kb].id, below_arm(ia), below_arm(ib));
            }
        }
    }
}

/// The body is as safe as its arms, whatever their order: it may move and may
/// have motor power where every arm may, it is stopped where any arm is
/// stopped, faulty where none is stopped and any is faulty, and normal where
/// every arm is.
pub proof fn law_body_is_as_safe_as_its_arms(
    entries: Seq<EntryView>,
    body_id: Seq<char>,
    arm_model: Seq<char>,
    seq: u64,
    now_ns: i64,
    frame_times: Seq<i64>,
)
    requires
        entries.len() > 0,
    ensures
        body_snapshot(entries, body_id, arm_model, seq, now_ns, frame_times).safety matches Some(
            safety,
        ) && {
            &&& safety.motion_allowed <==> forall|k: int|
                0 <= k < entries.len() ==> safety_of(
                    readout((#[trigger] entries[k]).state),
                ).motion_allowed
            &&& safety.motor_power_allowed <==> forall|k: int|
                0 <= k < entries.len() ==> safety_of(
                    readout((#[trigger] entries[k]).state),
                ).motor_power_allowed
            &&& safety.aggregate_state == SAFETY_ESTOP <==> exists|k: int|
                0 <= k < entries.len() && readout((#[trigger] entries[k]).state).arm_state
                    == SAFETY_ESTOP
            &&& safety.aggregate_state == SAFETY_NORMAL <==> forall|k: int|
                0 <= k < entries.len() ==> readout((#[trigger] entries[k]).state).arm_state
                    == SAFETY_NORMAL
            &&& safety.motor_power_allowed ==> safety.motion_allowed
            &&& safety.motion_allowed ==> safety.aggregate_state == SAFETY_NORMAL
        },
{
    let parts = parts_of(entries, body_id, arm_model, seq, frame_times);
    let safety = merged_safety(parts);
    assert forall|k: int| 0 <= k < entries.len() implies #[trigger] parts[k].snapshot.safety == Some(
        safety_of(readout(entries[k].state)),
    ) by {}
    assert forall|k: int| 0 <= k < entries.len() implies (#[trigger] entries[k]).state
        == entries[k].state && parts[k].permits_motion() == safety_of(
        readout(entries[k].state),
    ).motion_allowed && parts[k].permits_power() == safety_of(
        readout(entries[k].state),
    ).motor_power_allowed by {
        assert(parts[k].snapshot.safety == Some(safety_of(readout(entries[k].state))));
    }
    assert forall|k: int, state: u32| 0 <= k < entries.len() implies #[trigger] parts[k].reports(
        state,
    ) == (readout(entries[k].state).arm_state == state) by {
        assert(parts[k].snapshot.safety == Some(safety_of(readout(entries[k].state))));
    }
    if safety.motion_allowed {
        assert forall|k: int| 0 <= k < entries.len() implies safety_of(
            readout((#[trigger] entries[k]).state),
        ).motion_allowed by {
            assert(parts[k].permits_motion());
        }
    }
    if safety.motor_power_allowed {
        assert forall|k: int| 0 <= k < entries.len() implies safety_of(
            readout((#[trigger] entries[k]).state),
        ).motor_power_allowed by {
            assert(parts[k].permits_power());
        }
    }
    if safety.aggregate_state == SAFETY_NORMAL {
        assert forall|k: int| 0 <= k < entries.len() implies readout(
            (#[trigger] entries[k]).state,
        ).arm_state == SAFETY_NORMAL by {
            if readout(entries[k].state).arm_state != SAFETY_NORMAL {
                assert(parts[k].reports(readout(entries[k].state).arm_state));
            }
        }
    }
    if any_reports(parts, SAFETY_ESTOP) {
        let k = choose|k: int| 0 <= k < parts.len() && (#[trigger] parts[k]).reports(SAFETY_ESTOP);
        assert(readout(entries[k].state).arm_state == SAFETY_ESTOP);
    }
    if any_reports(parts, SAFETY_FAULT) {
        let k = choose|k: int| 0 <= k < parts.len() && (#[trigger] parts[k]).reports(SAFETY_FAULT);
        assert(readout(entries[k].state).arm_state == SAFETY_FAULT);
    }
    if exists|k: int|
        0 <= k < entries.len() && readout((#[trigger] entries[k]).state).arm_state == SAFETY_ESTOP {
        let k = choose|k: int|
            0 <= k < entries.len() && readout((#[trigger] entries[k]).state).arm_state
                == SAFETY_ESTOP;
        assert(parts[k].reports(SAFETY_ESTOP));
    }
}

/// A body without a connected provider may not move, has no motor power and is
/// in the fault state.
pub proof fn law_body_without_providers_stands_still(
    body_id: Seq<char>,
    arm_model: Seq<char>,
    seq: u64,
    now_ns: i64,
    frame_times: Seq<i64>,
)
    ensures
        body_snapshot(Seq::empty(), body_id, arm_model, seq, now_ns, frame_times).safety matches Some(
            safety,
        ) && !safety.motion_allowed && !safety.motor_power_allowed && safety.aggregate_state
            == SAFETY_FAULT,
{
}

/// The snapshot of the body depends on which frame is held for which provider,
/// and not on the order in which the frames came.
pub proof fn law_body_depends_on_frames_alone(
    a: Seq<EntryView>,
    b: Seq<EntryView>,
    body_id: Seq<char>,
    arm_model: Seq<char>,
    seq: u64,
    now_ns: i64,
    frame_times: Seq<i64>,
)
    requires
        ordered(a),
        ordered(b),
        frames(a) == frames(b),
    ensures
        body_snapshot(a, body_id, arm_model, seq, now_ns, frame_times) == body_snapshot(
            b,
            body_id,
            arm_model,
            seq,
            now_ns,
            frame_times,
        ),
{
    law_frames_determine_the_listing(a, b);
}

/// What a provider's frame says is said in every table that holds the frame.
proof fn lemma_held_entry(a: Seq<EntryView>, b: Seq<EntryView>, k: int) -> (j: int)
    requires
        ordered(a),
        ordered(b),
        frames(a).submap_of(frames(b)),
        0 <= k < a.len(),
    ensures
        0 <= j < b.len(),
        b[j].state == a[k].state,
{
    let id = a[k].id;
    lemma_frame_of_entry(a, k);
    assert(frames(b).contains_key(id));
    let j = choose|j: int| entry_is(b, j, id);
    lemma_frame_of_entry(b, j);
    assert(frames(a)[id] == frames(b)[id]);
    j
}

/// Further providers only restrict a body that has any: what it may do with
/// them it may do without them, an emergency stop stays one, and it is normal
/// with them only where it is normal without.
pub proof fn law_more_providers_only_restrict(
    a: Seq<EntryView>,
    b: Seq<EntryView>,
    body_id: Seq<char>,
    arm_model: Seq<char>,
    seq_a: u64,
    seq_b: u64,
    now_a: i64,
    now_b: i64,
    times_a: Seq<i64>,
    times_b: Seq<i64>,
)
    requires
        ordered(a),
        ordered(b),
        a.len() > 0,
        frames(a).submap_of(frames(b)),
    ensures
        body_snapshot(a, body_id, arm_model, seq_a, now_a, times_a).safety matches Some(fewer) && (
        body_snapshot(b, body_id, arm_model, seq_b, now_b, times_b).safety matches Some(more) && {
            &&& more.motion_allowed ==> fewer.motion_allowed
            &&& more.motor_power_allowed ==> fewer.motor_power_allowed
            &&& fewer.aggregate_state == SAFETY_ESTOP ==> more.aggregate_state == SAFETY_ESTOP
            &&& more.aggregate_state == SAFETY_NORMAL ==> fewer.aggregate_state == SAFETY_NORMAL
        }),
{
    lemma_held_entry(a, b, 0);
    law_body_is_as_safe_as_its_arms(a, body_id, arm_model, seq_a, now_a, times_a);
    law_body_is_as_safe_as_its_arms(b, body_id, arm_model, seq_b, now_b, times_b);
    let fewer = body_snapshot(a, body_id, arm_model, seq_a, now_a, times_a).safety->0;
    let more = body_snapshot(b, body_id, arm_model, seq_b, now_b, times_b).safety->0;
    assert forall|k: int| 0 <= k < a.len() implies {
        let arm = readout((#[trigger] a[k]).state);
        &&& more.motion_allowed ==> safety_of(arm).motion_allowed
        &&& more.motor_power_allowed ==> safety_of(arm).motor_power_allowed
        &&& arm.arm_state == SAFETY_ESTOP ==> more.aggregate_state == SAFETY_ESTOP
        &&& more.aggregate_state == SAFETY_NORMAL ==> arm.arm_state == SAFETY_NORMAL
    } by {
        let j = lemma_held_entry(a, b, k);
        assert(b[j].state == a[k].state);
    }
}

/// Parts that agree but for the times of their faults add up to the same but
/// for those times.
proof fn lemma_parts_untimed(a: Seq<PartView>, b: Seq<PartView>)
    requires
        a.len() == b.len(),
        forall|k: int|
            0 <= k < a.len() ==> (#[trigger] a[k]).provider_id == b[k].provider_id && untimed(
                a[k].snapshot,
            ) == untimed(b[k].snapshot),
    ensures
        all_components(a) == all_components(b),
        all_actuators(a) == all_actuators(b),
        all_endpoints(a) == all_endpoints(b),
        untimed_faults(all_faults(a)) == untimed_faults(all_faults(b)),
    decreases a.len(),
{
    if a.len() > 0 {
        let m = a.len() - 1;
        let fewer_a = a.drop_last();
        let fewer_b = b.drop_last();
        assert forall|k: int| 0 <= k < fewer_a.len() implies (#[trigger] fewer_a[k]).provider_id
            == fewer_b[k].provider_id && untimed(fewer_a[k].snapshot) == untimed(
            fewer_b[k].snapshot,
        ) by {
            assert(fewer_a[k] == a[k]);
        }
        lemma_parts_untimed(fewer_a, fewer_b);
        let x = a[m];
        let y = b[m];
        assert(untimed(x.snapshot) == untimed(y.snapshot));
        assert(x.actuators() =~= y.actuators());
        assert(x.endpoints() =~= y.endpoints());
        assert(untimed_faults(x.snapshot.faults) == untimed_faults(y.snapshot.faults));
        assert(untimed_faults(x.snapshot.faults).len() == untimed_faults(y.snapshot.faults).len());
        assert forall|i: int| 0 <= i < x.faults().len() implies untimed_fault(
            #[trigger] x.faults()[i],
        ) == untimed_fault(y.faults()[i]) by {
            assert(untimed_faults(x.snapshot.faults)[i] == untimed_faults(y.snapshot.faults)[i]);
        }
        assert(untimed_faults(x.faults()) =~= untimed_faults(y.faults()));
        assert(untimed_faults(all_faults(a)) =~= untimed_faults(all_faults(fewer_a))
            + untimed_faults(x.faults()));
        assert(untimed_faults(all_faults(b)) =~= untimed_faults(all_faults(fewer_b))
            + untimed_faults(y.faults()));
    }
}

/// The snapshot of the body depends on the last reading of every channel of
/// every provider alone: two tables that agree on those give the same snapshot
/// but for its times.
pub proof fn law_last_readings_decide_the_body(
    a: Seq<EntryView>,
    b: Seq<EntryView>,
    body_id: Seq<char>,
    arm_model: Seq<char>,
    seq: u64,
    now_a: i64,
    now_b: i64,
    times_a: Seq<i64>,
    times_b: Seq<i64>,
)
    requires
        a.len() == b.len(),
        forall|k: int| 0 <= k < a.len() ==> (#[trigger] a[k]).id == b[k].id,
        forall|k: int, c: Channel|
            0 <= k < a.len() ==> #[trigger] latest(a[k].state, c) == latest(b[k].state, c),
    ensures
        untimed(body_snapshot(a, body_id, arm_model, seq, now_a, times_a)) == untimed(
            body_snapshot(b, body_id, arm_model, seq, now_b, times_b),
        ),
{
    if a.len() > 0 {
        let parts_a = parts_of(a, body_id, arm_model, seq, times_a);
        let parts_b = parts_of(b, body_id, arm_model, seq, times_b);
        assert forall|k: int| 0 <= k < parts_a.len() implies (#[trigger] parts_a[k]).provider_id
            == parts_b[k].provider_id && untimed(parts_a[k].snapshot) == untimed(
            parts_b[k].snapshot,
        ) by {
            assert(a[k].id == b[k].id);
            law_last_readings_decide(
                a[k].state,
                b[k].state,
                body_id,
                arm_model,
                seq,
                times_a[k],
                times_b[k],
            );
        }
        lemma_parts_untimed(parts_a, parts_b);
        lemma_safety_untimed(parts_a, parts_b);
    }
}

/// Parts that agree but for the times of their faults are as safe.
proof fn lemma_safety_untimed(a: Seq<PartView>, b: Seq<PartView>)
    requires
        a.len() == b.len(),
        forall|k: int|
            0 <= k < a.len() ==> (#[trigger] a[k]).provider_id == b[k].provider_id && untimed(
                a[k].snapshot,
            ) == untimed(b[k].snapshot),
    ensures
        merged_safety(a) == merged_safety(b),
{
    assert forall|k: int| 0 <= k < a.len() implies (#[trigger] a[k]).snapshot.safety
        == b[k].snapshot.safety by {
        assert(untimed(a[k].snapshot) == untimed(b[k].snapshot));
    }
    assert forall|k: int| 0 <= k < a.len() implies (#[trigger] b[k]).snapshot.safety
        == a[k].snapshot.safety by {
        assert(a[k].snapshot.safety == b[k].snapshot.safety);
    }
    assert forall|state: u32| #[trigger] any_reports(a, state) == any_reports(b, state) by {
        if any_reports(a, state) {
            let k = choose|k: int| 0 <= k < a.len() && (#[trigger] a[k]).reports(state);
            assert(b[k].reports(state));
        }
        if any_reports(b, state) {
            let k = choose|k: int| 0 <= k < b.len() && (#[trigger] b[k]).reports(state);
            assert(a[k].reports(state));
        }
    }
    if merged_safety(a).motion_allowed {
        assert forall|k: int| 0 <= k < b.len() implies (#[trigger] b[k]).permits_motion() by {
            assert(a[k].permits_motion());
        }
    }
    if merged_safety(b).motion_allowed {
        assert forall|k: int| 0 <= k < a.len() implies (#[trigger] a[k]).permits_motion() by {
            assert(b[k].permits_motion());
        }
    }
    if merged_safety(a).motor_power_allowed {
        assert forall|k: int| 0 <= k < b.len() implies (#[trigger] b[k]).permits_power() by {
            assert(a[k].permits_power());
        }
    }
    if merged_safety(b).motor_power_allowed {
        assert forall|k: int| 0 <= k < a.len() implies (#[trigger] a[k]).permits_power() by {
            assert(b[k].permits_power());
        }
    }
}

/// Are the two texts the same but for the case of the letters `A` to `Z`?
pub open spec fn same_but_for_case(a: Seq<char>, b: Seq<char>) -> bool {
    &&& a.len() == b.len()
    &&& forall|i: int|
        #![trigger a[i]]
        #![trigger b[i]]
        0 <= i < a.len() ==> {
            ||| a[i] == b[i]
            ||| 65 <= a[i] as int <= 90 && b[i] as int == a[i] as int + 32
            ||| 65 <= b[i] as int <= 90 && a[i] as int == b[i] as int + 32
        }
}

/// Does the text hold the word, in upper or lower case?
pub open spec fn holds_word(text: Seq<char>, word: Seq<char>) -> bool {
    exists|front: Seq<char>, part: Seq<char>, back: Seq<char>|
        text == #[trigger] (front + part + back) && same_but_for_case(part, word)
}

/// A text holds a word without capitals where the word stands in the text in
/// lower case.
proof fn lemma_holds_word(text: Seq<char>, word: Seq<char>)
    requires
        forall|i: int| 0 <= i < word.len() ==> !(65 <= (#[trigger] word[i]) as int <= 90),
    ensures
        holds_word(text, word) <==> occurs_in(lowercased(text), word),
{
    let low = lowercased(text);
    assert forall|front: Seq<char>, part: Seq<char>, back: Seq<char>|
        text == #[trigger] (front + part + back) && same_but_for_case(part, word) implies occurs_in(
        low,
        word,
    ) by {
        let at = front.len() as int;
        assert forall|i: int| 0 <= i < word.len() implies low[at + i] == #[trigger] word[i] by {
            assert(text[at + i] == part[i]);
        }
        assert(low.subrange(at, at + word.len()) =~= word);
        assert(occurs_at(low, word, at));
    }
    if occurs_in(low, word) {
        let at = choose|at: int| occurs_at(low, word, at);
        let part = text.subrange(at, at + word.len());
        let front = text.subrange(0, at);
        let back = text.subrange(at + word.len(), text.len() as int);
        assert(text =~= front + part + back);
        assert forall|i: int| 0 <= i < word.len() implies {
            ||| #[trigger] part[i] == #[trigger] word[i]
            ||| 65 <= part[i] as int <= 90 && word[i] as int == part[i] as int + 32
            ||| 65 <= word[i] as int <= 90 && part[i] as int == word[i] as int + 32
        } by {
            assert(low.subrange(at, at + word.len())[i] == low[at + i]);
            assert(part[i] == text[at + i]);
        }
        assert(same_but_for_case(part, word));
    }
}

/// A provider whose id holds the word `right`, in upper or lower case, is on the
/// right side; one that does not, but holds `left`, is on the left side; any
/// other one is just an arm.
pub proof fn law_words_tell_the_side(id: Seq<char>)
    ensures
        side_of(id) == "right"@ <==> holds_word(id, "right"@),
        side_of(id) == "left"@ <==> holds_word(id, "left"@) && !holds_word(id, "right"@),
        side_of(id) == "arm"@ <==> !holds_word(id, "left"@) && !holds_word(id, "right"@),
{
    reveal_strlit("right");
    reveal_strlit("left");
    reveal_strlit("arm");
    assert("right"@[0] != "left"@[0]);
    assert("right"@[0] != "arm"@[0]);
    assert("left"@[0] != "arm"@[0]);
    lemma_holds_word(id, "right"@);
    lemma_holds_word(id, "left"@);
}

/// Wherever the word `right` stands in an id, the side is the right one, and
/// wherever `left` does, it is the left one, unless `right` stands there too.
pub proof fn law_words_may_stand_anywhere(front: Seq<char>, back: Seq<char>)
    ensures
        side_of(front + "right"@ + back) == "right"@,
        !holds_word(front + "left"@ + back, "right"@) ==> side_of(front + "left"@ + back)
            == "left"@,
{
    law_words_tell_the_side(front + "right"@ + back);
    law_words_tell_the_side(front + "left"@ + back);
    assert(same_but_for_case("right"@, "right"@));
    assert(same_but_for_case("left"@, "left"@));
}

/// The case of the letters in an id does not matter for its side.
pub proof fn law_case_does_not_matter_for_the_side(a: Seq<char>, b: Seq<char>)
    requires
        same_but_for_case(a, b),
    ensures
        side_of(a) == side_of(b),
{
    assert forall|i: int| 0 <= i < a.len() implies #[trigger] lowercased(a)[i] == lowercased(
        b,
    )[i] by {
        assert(a[i] == a[i]);
        law_lower_case(a);
        law_lower_case(b);
    }
    assert(lowercased(a) =~= lowercased(b));
}

/// A path on an arm goes on on the arm of a side, wherever `body/arm` stands in
/// it for the first time; the body, and no path at all, stay. The arm of a side
/// is below the body and carries the side.
pub proof fn law_paths_go_to_the_side(front: Seq<char>, rest: Seq<char>, side: Seq<char>)
    requires
        forall|f: Seq<char>, b: Seq<char>|
            front + "body/arm"@ + rest == #[trigger] (f + "body/arm"@ + b) ==> front.len()
                <= f.len(),
    ensures
        arm_id(side) == "body/"@ + side + "_arm"@,
        namespaced_path(front + "body/arm"@ + rest, arm_id(side)) == front + ("body/"@ + side
            + "_arm"@) + rest,
        namespaced_path("body"@, arm_id(side)) == "body"@,
        namespaced_path(""@, arm_id(side)) == ""@,
{
    reveal_strlit("body/arm");
    reveal_strlit("body");
    reveal_strlit("");
    law_first_occurrence_is_replaced(front, "body/arm"@, rest, arm_id(side));
    assert((front + "body/arm"@ + rest).len() >= 8);
}

/// A path that is not on an arm stays.
pub proof fn law_other_paths_stay(path: Seq<char>, arm: Seq<char>)
    requires
        forall|f: Seq<char>, b: Seq<char>| path != #[trigger] (f + "body/arm"@ + b),
    ensures
        namespaced_path(path, arm) == path,
{
    law_nothing_else_is_replaced(path, "body/arm"@, arm);
}

/// The frames of an arm, its joints and its gripper get the side in front. A
/// joint keeps what follows `joint_`. Any other frame stays.
pub proof fn law_frames_go_to_the_side(rest: Seq<char>, other: Seq<char>, side: Seq<char>)
    requires
        forall|r: Seq<char>| rest != #[trigger] ("joint_"@ + r),
        forall|r: Seq<char>| other != #[trigger] ("joint_"@ + r),
        other != "arm_base_link"@,
        other != "gripper_base"@,
        other != "gripper"@,
    ensures
        namespaced_frame("arm_base_link"@, side) == side + "_base_link"@,
        namespaced_frame("gripper_base"@, side) == side + "_gripper_base"@,
        namespaced_frame("gripper"@, side) == side + "_gripper_base"@,
        namespaced_frame("joint_"@ + rest, side) == side + "_joint"@ + rest,
        namespaced_frame(other, side) == other,
{
    reveal_strlit("arm_base_link");
    reveal_strlit("gripper_base");
    reveal_strlit("gripper");
    reveal_strlit("joint_");
    assert("gripper"@.len() != "arm_base_link"@.len());
    assert("gripper_base"@.len() != "arm_base_link"@.len());
    let joint = "joint_"@ + rest;
    assert(joint[0] == 'j');
    assert("arm_base_link"@[0] == 'a');
    assert("gripper_base"@[0] == 'g');
    assert("gripper"@[0] == 'g');
    law_ends_of_texts(joint, "joint_"@);
    assert(joint == "joint_"@ + rest);
    law_prefixes_are_dropped("joint_"@, rest);
    law_ends_of_texts(other, "joint_"@);
}

/// A title begins with a capital: `a` to `z` move by 32 code points, any other
/// ASCII character stays, and so does the rest of the text.
pub proof fn law_titles_begin_with_a_capital(c: char, rest: Seq<char>)
    ensures
        title_cased(Seq::empty()).len() == 0,
        97 <= c as int <= 122 ==> {
            &&& title_cased(seq![c] + rest).len() == 1 + rest.len()
            &&& title_cased(seq![c] + rest)[0] as int == c as int - 32
            &&& title_cased(seq![c] + rest).skip(1) == rest
        },
        c as int <= 127 && !(97 <= c as int <= 122) ==> title_cased(seq![c] + rest) == seq![c]
            + rest,
        c as int > 127 ==> title_cased(seq![c] + rest) == unicode_uppercase(c) + rest,
{
    let text = seq![c] + rest;
    assert(text[0] == c);
    assert(text.subrange(1, text.len() as int) =~= rest);
    assert(title_cased(text) == uppercase(c) + rest);
    if 97 <= c as int <= 122 {
        assert(title_cased(text).skip(1) =~= rest);
    }
}

/// Components become part of the body one by one, but for that of the body
/// itself. Each goes to the side with its id, its parent and its frame; the arm
/// gets the name of its side; nothing else changes.
pub proof fn law_components_are_merged_one_by_one(
    items: Seq<ComponentView>,
    item: ComponentView,
    side: Seq<char>,
)
    ensures
        namespaced_components(Seq::empty(), side).len() == 0,
        item.id == "body"@ ==> namespaced_components(items.push(item), side)
            == namespaced_components(items, side),
        item.id != "body"@ ==> {
            let all = namespaced_components(items.push(item), side);
            let merged = all.last();
            &&& all.len() == namespaced_components(items, side).len() + 1
            &&& all.drop_last() == namespaced_components(items, side)
            &&& merged.id == namespaced_path(item.id, arm_id(side))
            &&& merged.parent_id == namespaced_path(item.parent_id, arm_id(side))
            &&& merged.frame_id == namespaced_frame(item.frame_id, side)
            &&& merged.id == arm_id(side) ==> merged.name == title_cased(side) + " Piper arm"@
            &&& merged.id != arm_id(side) ==> merged.name == item.name
            &&& merged.kind == item.kind
            &&& merged.model == item.model
            &&& merged.serial == item.serial
            &&& merged.health == item.health
            &&& merged.operational_state == item.operational_state
            &&& merged.present == item.present
            &&& merged.online == item.online
            &&& merged.detail == item.detail
        },
{
    reveal(Seq::filter);
    let keep = |c: ComponentView| below_body(c);
    let more = items.push(item);
    assert(more.drop_last() =~= items);
    assert(Seq::<ComponentView>::empty().filter(keep).len() == 0);
    if item.id != "body"@ {
        assert(more.filter(keep) == items.filter(keep).push(item));
        assert(namespaced_components(more, side).drop_last() =~= namespaced_components(items, side));
    } else {
        assert(more.filter(keep) == items.filter(keep));
    }
}

/// What a provider adds to the body: its actuators, faults and safety endpoints,
/// in their order. An actuator changes in its component and its name alone, a
/// fault in its component and its id, and an endpoint in its name.
pub proof fn law_parts_keep_what_they_report(part: PartView, i: int)
    ensures
        part.side() == side_of(part.provider_id),
        part.components() == namespaced_components(
            part.snapshot.components,
            side_of(part.provider_id),
        ),
        part.actuators().len() == part.snapshot.actuators.len(),
        part.faults().len() == part.snapshot.faults.len(),
        part.endpoints().len() == part.snapshot.safety_endpoints.len(),
        0 <= i < part.snapshot.actuators.len() ==> {
            let merged = part.actuators()[i];
            let single = part.snapshot.actuators[i];
            let side = side_of(part.provider_id);
            &&& merged.component_id == namespaced_path(single.component_id, arm_id(side))
            &&& merged.joint_name == namespaced_frame(single.joint_name, side)
            &&& merged.position == single.position
            &&& merged.velocity == single.velocity
            &&& merged.effort == single.effort
            &&& merged.current == single.current
            &&& merged.voltage == single.voltage
            &&& merged.motor_temp == single.motor_temp
            &&& merged.driver_temp == single.driver_temp
            &&& merged.torque_enabled == single.torque_enabled
            &&& merged.brake_engaged == single.brake_engaged
            &&& merged.communication_ok == single.communication_ok
            &&& merged.vendor_mode == single.vendor_mode
            &&& merged.vendor_error_code == single.vendor_error_code
            &&& merged.status_flags == single.status_flags
        },
        0 <= i < part.snapshot.faults.len() ==> {
            let merged = part.faults()[i];
            let single = part.snapshot.faults[i];
            let side = side_of(part.provider_id);
            &&& merged.component_id == namespaced_path(single.component_id, arm_id(side))
            &&& merged.fault_id == side + "_"@ + single.fault_id
            &&& merged.severity == single.severity
            &&& merged.active == single.active
            &&& merged.clearable == single.clearable
            &&& merged.onset_ts_ns == single.onset_ts_ns
            &&& merged.vendor_code == single.vendor_code
            &&& merged.vendor_code_text == single.vendor_code_text
            &&& merged.message == single.message
            &&& merged.attributes == single.attributes
            &&& merged.vendor_raw_json == single.vendor_raw_json
        },
        0 <= i < part.snapshot.safety_endpoints.len() ==> part.endpoints()[i].name == side_of(
            part.provider_id,
        ) + "_"@ + part.snapshot.safety_endpoints[i].name,
{
}

/// The providers add up one after the other.
pub proof fn law_parts_add_up(parts: Seq<PartView>, part: PartView)
    ensures
        all_components(Seq::empty()).len() == 0,
        all_actuators(Seq::empty()).len() == 0,
        all_faults(Seq::empty()).len() == 0,
        all_endpoints(Seq::empty()).len() == 0,
        all_components(parts.push(part)) == all_components(parts) + part.components(),
        all_actuators(parts.push(part)) == all_actuators(parts) + part.actuators(),
        all_faults(parts.push(part)) == all_faults(parts) + part.faults(),
        all_endpoints(parts.push(part)) == all_endpoints(parts) + part.endpoints(),
{
    assert(parts.push(part).drop_last() =~= parts);
}

/// The merged snapshot carries schema version 1, the body's id, the number and
/// the time that it was given, and may be used for 1500 ms. It lists the body
/// first and then what the providers add up to, and no power sources or metrics.
pub proof fn law_merged_snapshot_is_labelled(
    parts: Seq<PartView>,
    body_id: Seq<char>,
    seq: u64,
    now_ns: i64,
)
    ensures
        ({
            let snapshot = merged_snapshot(parts, body_id, seq, now_ns);
            &&& snapshot.schema_version == 1
            &&& snapshot.body_id == body_id
            &&& snapshot.seq == seq
            &&& snapshot.source_ts_ns == now_ns
            &&& snapshot.soma_ts_ns == now_ns
            &&& snapshot.ttl_ms == 1500
            &&& snapshot.components.len() == 1 + all_components(parts).len()
            &&& described(
                snapshot.components[0],
                "body"@,
                ""@,
                1,
                "Dual Piper robot"@,
                "dual_piper_base"@,
                body_id,
            )
            &&& snapshot.components.skip(1) == all_components(parts)
            &&& snapshot.actuators == all_actuators(parts)
            &&& snapshot.faults == all_faults(parts)
            &&& snapshot.safety_endpoints == all_endpoints(parts)
            &&& snapshot.power_sources.len() == 0
            &&& snapshot.metrics.len() == 0
        }),
{
    let snapshot = merged_snapshot(parts, body_id, seq, now_ns);
    assert(snapshot.components.skip(1) =~= all_components(parts));
}

/// The safety of the merged body: it may move, and have motor power, unless a
/// provider says that it may not; it is stopped (4) where any provider is
/// stopped, else in the fault state (5) where any is, else normal (1). What a
/// provider without a safety state thinks does not matter.
pub proof fn law_merged_safety(parts: Seq<PartView>, body_id: Seq<char>, seq: u64, now_ns: i64)
    ensures
        merged_snapshot(parts, body_id, seq, now_ns).safety matches Some(safety) && {
            let stopped = exists|k: int|
                0 <= k < parts.len() && ((#[trigger] parts[k]).snapshot.safety matches Some(s)
                    && s.aggregate_state == 4);
            let faulty = exists|k: int|
                0 <= k < parts.len() && ((#[trigger] parts[k]).snapshot.safety matches Some(s)
                    && s.aggregate_state == 5);
            &&& safety.motion_allowed <==> forall|k: int|
                0 <= k < parts.len() ==> ((#[trigger] parts[k]).snapshot.safety matches Some(s)
                    ==> s.motion_allowed)
            &&& safety.motor_power_allowed <==> forall|k: int|
                0 <= k < parts.len() ==> ((#[trigger] parts[k]).snapshot.safety matches Some(s)
                    ==> s.motor_power_allowed)
            &&& stopped ==> safety.aggregate_state == 4
            &&& !stopped && faulty ==> safety.aggregate_state == 5
            &&& !stopped && !faulty ==> safety.aggregate_state == 1
            &&& safety.detail == decimal(parts.len()) + " Piper health provider(s) aggregated"@
        },
{
    let safety = merged_safety(parts);
    if exists|k: int|
        0 <= k < parts.len() && ((#[trigger] parts[k]).snapshot.safety matches Some(s)
            && s.aggregate_state == 4) {
        let k = choose|k: int|
            0 <= k < parts.len() && ((#[trigger] parts[k]).snapshot.safety matches Some(s)
                && s.aggregate_state == 4);
        assert(parts[k].reports(SAFETY_ESTOP));
    }
    if exists|k: int|
        0 <= k < parts.len() && ((#[trigger] parts[k]).snapshot.safety matches Some(s)
            && s.aggregate_state == 5) {
        let k = choose|k: int|
            0 <= k < parts.len() && ((#[trigger] parts[k]).snapshot.safety matches Some(s)
                && s.aggregate_state == 5);
        assert(parts[k].reports(SAFETY_FAULT));
    }
    if safety.motion_allowed {
        assert forall|k: int| 0 <= k < parts.len() implies ((
        #[trigger] parts[k]).snapshot.safety matches Some(s) ==> s.motion_allowed) by {
            assert(parts[k].permits_motion());
        }
    }
    if safety.motor_power_allowed {
        assert forall|k: int| 0 <= k < parts.len() implies ((
        #[trigger] parts[k]).snapshot.safety matches Some(s) ==> s.motor_power_allowed) by {
            assert(parts[k].permits_power());
        }
    }
}

/// The body is merged from one part for each entry of the table, in its order:
/// the snapshot of the arm that sent the entry's frame. Without entries it is the
/// body of which no arm is known.
pub proof fn law_body_is_merged_from_the_table(
    entries: Seq<EntryView>,
    body_id: Seq<char>,
    arm_model: Seq<char>,
    seq: u64,
    now_ns: i64,
    frame_times: Seq<i64>,
    k: int,
)
    requires
        0 <= k < entries.len() || entries.len() == 0,
    ensures
        entries.len() == 0 ==> body_snapshot(entries, body_id, arm_model, seq, now_ns, frame_times)
            == unknown_snapshot(body_id, arm_model, seq, now_ns),
        entries.len() > 0 ==> exists|parts: Seq<PartView>|
            body_snapshot(entries, body_id, arm_model, seq, now_ns, frame_times)
                == #[trigger] merged_snapshot(parts, body_id, seq, now_ns) && parts.len()
                == entries.len() && parts[k].provider_id == entries[k].id && parts[k].snapshot
                == arm_snapshot(entries[k].state, body_id, arm_model, seq, frame_times[k]),
{
    let parts = parts_of(entries, body_id, arm_model, seq, frame_times);
    if entries.len() > 0 {
        assert(body_snapshot(entries, body_id, arm_model, seq, now_ns, frame_times)
            == merged_snapshot(parts, body_id, seq, now_ns));
    }
}

/// Actuator `i` of the provider at position `k` is number `7 * k + i` of the
/// body. It shows all that it shows on a single arm; its component and its name
/// carry the side.
pub proof fn law_body_actuators_show_what_the_arms_show(
    entries: Seq<EntryView>,
    body_id: Seq<char>,
    arm_model: Seq<char>,
    seq: u64,
    now_ns: i64,
    frame_times: Seq<i64>,
    k: int,
    i: int,
)
    requires
        0 <= k < entries.len(),
        0 <= i < 7,
    ensures
        body_snapshot(entries, body_id, arm_model, seq, now_ns, frame_times).actuators.len() == 7
            * entries.len(),
        ({
            let merged = body_snapshot(entries, body_id, arm_model, seq, now_ns, frame_times).actuators[7
                * k + i];
            let single = arm_snapshot(
                entries[k].state,
                body_id,
                arm_model,
                seq,
                frame_times[k],
            ).actuators[i];
            let side = side_of(entries[k].id);
            &&& i < 6 ==> merged.component_id == "body/"@ + side + "_arm"@ + ("/joint_"@ + decimal(
                (i + 1) as nat,
            ))
            &&& i < 6 ==> merged.joint_name == side + "_joint"@ + decimal((i + 1) as nat)
            &&& i == 6 ==> merged.component_id == "body/"@ + side + "_arm"@ + "/gripper"@
            &&& i == 6 ==> merged.joint_name == side + "_gripper_base"@
            &&& merged.position == single.position
            &&& merged.velocity == single.velocity
            &&& merged.effort == single.effort
            &&& merged.current == single.current
            &&& merged.voltage == single.voltage
            &&& merged.motor_temp == single.motor_temp
            &&& merged.driver_temp == single.driver_temp
            &&& merged.torque_enabled == single.torque_enabled
            &&& merged.brake_engaged == single.brake_engaged
            &&& merged.communication_ok == single.communication_ok
            &&& merged.vendor_mode == single.vendor_mode
            &&& merged.vendor_error_code == single.vendor_error_code
            &&& merged.status_flags == single.status_flags
        }),
{
    let state = entries[k].state;
    let side = side_of(entries[k].id);
    let single = actuators_of(readout(state))[i];
    law_body_counts(entries, body_id, arm_model, seq, now_ns, frame_times);
    law_body_has_every_actuator(entries, body_id, arm_model, seq, now_ns, frame_times, k, i);
    law_joints_are_read(state, 0);
    reveal_strlit("body/arm");
    reveal_strlit("body/arm/joint_");
    reveal_strlit("/joint_");
    reveal_strlit("body/arm/gripper");
    reveal_strlit("/gripper");
    if i < 6 {
        law_actuators_show_the_arm(readout(state), i);
        let rest = "/joint_"@ + decimal((i + 1) as nat);
        assert(single.component_id =~= "body/arm"@ + rest);
        lemma_path_below_arm(rest, arm_id(side));
        lemma_joint_frame((i + 1) as nat, side);
    } else {
        law_actuators_show_the_arm(readout(state), 0);
        assert(single.component_id =~= "body/arm"@ + "/gripper"@);
        lemma_path_below_arm("/gripper"@, arm_id(side));
        reveal_strlit("arm_base_link");
        reveal_strlit("gripper");
        assert("gripper"@.len() != "arm_base_link"@.len());
    }
}

/// How many faults the arms of the first `k` entries report.
pub open spec fn faults_before(
    entries: Seq<EntryView>,
    body_id: Seq<char>,
    arm_model: Seq<char>,
    seq: u64,
    frame_times: Seq<i64>,
    k: int,
) -> int
    decreases k,
{
    if k <= 0 {
        0
    } else {
        faults_before(entries, body_id, arm_model, seq, frame_times, k - 1) + arm_snapshot(
            entries[k - 1].state,
            body_id,
            arm_model,
            seq,
            frame_times[k - 1],
        ).faults.len()
    }
}

/// The faults of the first parts are as many as their arms report.
proof fn lemma_fault_blocks(
    entries: Seq<EntryView>,
    body_id: Seq<char>,
    arm_model: Seq<char>,
    seq: u64,
    frame_times: Seq<i64>,
    n: int,
)
    requires
        0 <= n <= entries.len(),
    ensures
        all_faults(parts_of(entries, body_id, arm_model, seq, frame_times).take(n)).len()
            == faults_before(entries, body_id, arm_model, seq, frame_times, n),
        forall|k: int, i: int|
            0 <= k < n && 0 <= i < parts_of(
                entries,
                body_id,
                arm_model,
                seq,
                frame_times,
            )[k].faults().len() ==> all_faults(
                parts_of(entries, body_id, arm_model, seq, frame_times).take(n),
            )[faults_before(entries, body_id, arm_model, seq, frame_times, k) + i]
                == #[trigger] parts_of(
                entries,
                body_id,
                arm_model,
                seq,
                frame_times,
            )[k].faults()[i] && faults_before(
                entries,
                body_id,
                arm_model,
                seq,
                frame_times,
                k,
            ) + i < faults_before(entries, body_id, arm_model, seq, frame_times, n) && 0
                <= faults_before(entries, body_id, arm_model, seq, frame_times, k),
    decreases n,
{
    let parts = parts_of(entries, body_id, arm_model, seq, frame_times);
    if n > 0 {
        lemma_fault_blocks(entries, body_id, arm_model, seq, frame_times, n - 1);
        let fewer = parts.take(n - 1);
        let more = parts.take(n);
        assert(more.drop_last() =~= fewer);
        assert(more.last() == parts[n - 1]);
        let a = all_faults(fewer);
        let all = all_faults(more);
        assert(all == a + parts[n - 1].faults());
        let at = faults_before(entries, body_id, arm_model, seq, frame_times, n - 1);
        assert forall|k: int, i: int|
            0 <= k < n && 0 <= i < parts[k].faults().len() implies all[faults_before(
            entries,
            body_id,
            arm_model,
            seq,
            frame_times,
            k,
        ) + i] == #[trigger] parts[k].faults()[i] && faults_before(
            entries,
            body_id,
            arm_model,
            seq,
            frame_times,
            k,
        ) + i < faults_before(entries, body_id, arm_model, seq, frame_times, n) && 0
            <= faults_before(entries, body_id, arm_model, seq, frame_times, k) by {
            let before = faults_before(entries, body_id, arm_model, seq, frame_times, k);
            if k < n - 1 {
                assert(a[before + i] == parts[k].faults()[i]);
            } else {
                assert(before == a.len());
                assert(all[at + i] == parts[k].faults()[i]);
            }
        }
    }
}

/// The faults of the body are those of the arms, one arm after the other. Each
/// says all that it says on a single arm; its id and its component carry the
/// side.
pub proof fn law_body_faults_say_what_the_arms_say(
    entries: Seq<EntryView>,
    body_id: Seq<char>,
    arm_model: Seq<char>,
    seq: u64,
    now_ns: i64,
    frame_times: Seq<i64>,
    k: int,
    i: int,
)
    requires
        0 <= k < entries.len(),
        0 <= i < arm_snapshot(
            entries[k].state,
            body_id,
            arm_model,
            seq,
            frame_times[k],
        ).faults.len(),
    ensures
        body_snapshot(entries, body_id, arm_model, seq, now_ns, frame_times).faults.len()
            == faults_before(
            entries,
            body_id,
            arm_model,
            seq,
            frame_times,
            entries.len() as int,
        ),
        ({
            let at = faults_before(entries, body_id, arm_model, seq, frame_times, k) + i;
            let merged = body_snapshot(entries, body_id, arm_model, seq, now_ns, frame_times).faults[at];
            let single = arm_snapshot(
                entries[k].state,
                body_id,
                arm_model,
                seq,
                frame_times[k],
            ).faults[i];
            let side = side_of(entries[k].id);
            &&& 0 <= at < body_snapshot(entries, body_id, arm_model, seq, now_ns, frame_times).faults.len()
            &&& merged.fault_id == side + "_"@ + single.fault_id
            &&& forall|rest: Seq<char>|
                single.component_id == #[trigger] ("body/arm"@ + rest) ==> merged.component_id
                    == "body/"@ + side + "_arm"@ + rest
            &&& merged.severity == single.severity
            &&& merged.active == single.active
            &&& merged.clearable == single.clearable
            &&& merged.onset_ts_ns == single.onset_ts_ns
            &&& merged.vendor_code == single.vendor_code
            &&& merged.vendor_code_text == single.vendor_code_text
            &&& merged.message == single.message
            &&& merged.attributes == single.attributes
            &&& merged.vendor_raw_json == single.vendor_raw_json
        }),
{
    let parts = parts_of(entries, body_id, arm_model, seq, frame_times);
    let n = entries.len() as int;
    lemma_fault_blocks(entries, body_id, arm_model, seq, frame_times, n);
    assert(parts.take(n) =~= parts);
    let single = parts[k].snapshot.faults[i];
    let merged = parts[k].faults()[i];
    assert(merged == namespaced_fault(single, side_of(entries[k].id)));
    assert forall|rest: Seq<char>|
        single.component_id == #[trigger] ("body/arm"@ + rest) implies merged.component_id
        == "body/"@ + side_of(entries[k].id) + "_arm"@ + rest by {
        lemma_path_below_arm(rest, arm_id(side_of(entries[k].id)));
    }
}

/// The body is described as itself (kind 1), and then arm by arm: the arm of the
/// provider at position `k` (2), its joints (4), numbered from 1, and its gripper
/// (6), all on the provider's side and otherwise as on a single arm.
pub proof fn law_body_is_described(
    entries: Seq<EntryView>,
    body_id: Seq<char>,
    arm_model: Seq<char>,
    seq: u64,
    now_ns: i64,
    frame_times: Seq<i64>,
    k: int,
    n: int,
)
    requires
        0 <= k < entries.len(),
        1 <= n <= 6,
    ensures
        ({
            let all = body_snapshot(entries, body_id, arm_model, seq, now_ns, frame_times).components;
            let side = side_of(entries[k].id);
            let arm = "body/"@ + side + "_arm"@;
            &&& all.len() == 1 + 8 * entries.len()
            &&& described(
                all[0],
                "body"@,
                ""@,
                1,
                "Dual Piper robot"@,
                "dual_piper_base"@,
                body_id,
            )
            &&& described(
                all[8 * k + 1],
                arm,
                "body"@,
                2,
                if side == "left"@ {
                    "Left Piper arm"@
                } else if side == "right"@ {
                    "Right Piper arm"@
                } else {
                    "Arm Piper arm"@
                },
                side + "_base_link"@,
                arm_model,
            )
            &&& described(
                all[8 * k + 1 + n],
                arm + ("/joint_"@ + decimal(n as nat)),
                arm,
                4,
                "joint_"@ + decimal(n as nat),
                side + "_joint"@ + decimal(n as nat),
                arm_model,
            )
            &&& described(
                all[8 * k + 8],
                arm + "/gripper"@,
                arm,
                6,
                "gripper"@,
                side + "_gripper_base"@,
                "piper_gripper"@,
            )
        }),
{
    let all = body_snapshot(entries, body_id, arm_model, seq, now_ns, frame_times).components;
    let single = components_of(arm_model);
    let side = side_of(entries[k].id);
    let arm = arm_id(side);
    law_body_counts(entries, body_id, arm_model, seq, now_ns, frame_times);
    law_arm_is_described(arm_model, n as nat);
    lemma_body_item(entries, body_id, arm_model, seq, now_ns, frame_times, k, 1);
    lemma_body_item(entries, body_id, arm_model, seq, now_ns, frame_times, k, n + 1);
    lemma_body_item(entries, body_id, arm_model, seq, now_ns, frame_times, k, 8);
    assert(arm + below_arm(1) =~= arm);
    reveal_strlit("left");
    reveal_strlit("right");
    reveal_strlit("arm");
    reveal_strlit(" Piper arm");
    reveal_strlit("Left Piper arm");
    reveal_strlit("Right Piper arm");
    reveal_strlit("Arm Piper arm");
    assert("left"@[0] != "right"@[0]);
    assert("left"@[0] != "arm"@[0]);
    assert("right"@[0] != "arm"@[0]);
    assert(title_cased("left"@) + " Piper arm"@ =~= "Left Piper arm"@);
    assert(title_cased("right"@) + " Piper arm"@ =~= "Right Piper arm"@);
    assert(title_cased("arm"@) + " Piper arm"@ =~= "Arm Piper arm"@);
}

/// A component of an arm keeps, on its side, all that does not name the side.
proof fn lemma_body_item(
    entries: Seq<EntryView>,
    body_id: Seq<char>,
    arm_model: Seq<char>,
    seq: u64,
    now_ns: i64,
    frame_times: Seq<i64>,
    k: int,
    i: int,
)
    requires
        0 <= k < entries.len(),
        1 <= i < 9,
    ensures
        ({
            let placed = body_snapshot(entries, body_id, arm_model, seq, now_ns, frame_times).components[8
                * k + i];
            let single = components_of(arm_model)[i];
            &&& placed_on(placed, single, i, side_of(entries[k].id))
            &&& placed.kind == single.kind
            &&& placed.model == single.model
            &&& placed.serial == single.serial
            &&& placed.health == single.health
            &&& placed.operational_state == single.operational_state
            &&& placed.present == single.present
            &&& placed.online == single.online
            &&& placed.detail == single.detail
        }),
{
    let parts = parts_of(entries, body_id, arm_model, seq, frame_times);
    let all = body_snapshot(entries, body_id, arm_model, seq, now_ns, frame_times).components;
    let side = side_of(entries[k].id);
    lemma_placed_at(entries, body_id, arm_model, seq, now_ns, frame_times, k, i);
    lemma_parts(entries, body_id, arm_model, seq, frame_times);
    lemma_component_blocks(parts);
    let j = 8 * k + i - 1;
    assert(j / 8 == k && j % 8 == i - 1);
    assert(all[8 * k + i] == all_components(parts)[j]);
    assert(all_components(parts)[j] == parts[k].components()[i - 1]);
    lemma_placed_item(side, arm_model, i);
}

/// The snapshot of the body carries schema version 1, the body's id, the number
/// and the time that it was given, and may be used for 1500 ms. It lists no power
/// sources, safety endpoints or metrics, and says how many providers it is made
/// of.
pub proof fn law_body_snapshot_is_labelled(
    entries: Seq<EntryView>,
    body_id: Seq<char>,
    arm_model: Seq<char>,
    seq: u64,
    now_ns: i64,
    frame_times: Seq<i64>,
)
    ensures
        ({
            let snapshot = body_snapshot(entries, body_id, arm_model, seq, now_ns, frame_times);
            &&& snapshot.schema_version == 1
            &&& snapshot.body_id == body_id
            &&& snapshot.seq == seq
            &&& snapshot.source_ts_ns == now_ns
            &&& snapshot.soma_ts_ns == now_ns
            &&& snapshot.ttl_ms == 1500
            &&& snapshot.power_sources.len() == 0
            &&& snapshot.safety_endpoints.len() == 0
            &&& snapshot.metrics.len() == 0
            &&& snapshot.safety matches Some(safety) && safety.detail == (if entries.len() == 0 {
                "no health primitive connected"@
            } else {
                decimal(entries.len()) + " Piper health provider(s) aggregated"@
            })
        }),
{
    let parts = parts_of(entries, body_id, arm_model, seq, frame_times);
    lemma_no_endpoints(parts);
}

/// Parts without safety endpoints add up to none.
proof fn lemma_no_endpoints(parts: Seq<PartView>)
    requires
        forall|k: int|
            0 <= k < parts.len() ==> (#[trigger] parts[k]).snapshot.safety_endpoints.len() == 0,
    ensures
        all_endpoints(parts).len() == 0,
    decreases parts.len(),
{
    if parts.len() > 0 {
        let fewer = parts.drop_last();
        assert forall|k: int| 0 <= k < fewer.len() implies (
        #[trigger] fewer[k]).snapshot.safety_endpoints.len() == 0 by {
            assert(fewer[k] == parts[k]);
        }
        lemma_no_endpoints(fewer);
        assert(parts[parts.len() - 1].snapshot.safety_endpoints.len() == 0);
    }
}

/// What the body may do, by what its arms say: it may move, and have motor power,
/// exactly where every arm may; it is stopped (4) where any arm is, else in the
/// fault state (5) where any arm is, else normal (1).
pub proof fn law_arms_decide_the_safety_of_the_body(
    entries: Seq<EntryView>,
    body_id: Seq<char>,
    arm_model: Seq<char>,
    seq: u64,
    now_ns: i64,
    frame_times: Seq<i64>,
)
    requires
        entries.len() > 0,
    ensures
        body_snapshot(entries, body_id, arm_model, seq, now_ns, frame_times).safety matches Some(
            safety,
        ) && {
            let stopped = exists|k: int|
                0 <= k < entries.len() && (arm_snapshot(
                    (#[trigger] entries[k]).state,
                    body_id,
                    arm_model,
                    seq,
                    frame_times[k],
                ).safety matches Some(s) && s.aggregate_state == 4);
            let faulty = exists|k: int|
                0 <= k < entries.len() && (arm_snapshot(
                    (#[trigger] entries[k]).state,
                    body_id,
                    arm_model,
                    seq,
                    frame_times[k],
                ).safety matches Some(s) && s.aggregate_state == 5);
            &&& safety.motion_allowed <==> forall|k: int|
                0 <= k < entries.len() ==> (arm_snapshot(
                    (#[trigger] entries[k]).state,
                    body_id,
                    arm_model,
                    seq,
                    frame_times[k],
                ).safety matches Some(s) && s.motion_allowed)
            &&& safety.motor_power_allowed <==> forall|k: int|
                0 <= k < entries.len() ==> (arm_snapshot(
                    (#[trigger] entries[k]).state,
                    body_id,
                    arm_model,
                    seq,
                    frame_times[k],
                ).safety matches Some(s) && s.motor_power_allowed)
            &&& stopped ==> safety.aggregate_state == 4
            &&& !stopped && faulty ==> safety.aggregate_state == 5
            &&& !stopped && !faulty ==> safety.aggregate_state == 1
        },
{
    let parts = parts_of(entries, body_id, arm_model, seq, frame_times);
    law_merged_safety(parts, body_id, seq, now_ns);
    assert forall|k: int| 0 <= k < entries.len() implies (#[trigger] entries[k]).id
        == parts[k].provider_id && parts[k].snapshot == arm_snapshot(
        entries[k].state,
        body_id,
        arm_model,
        seq,
        frame_times[k],
    ) by {}
    assert forall|k: int| 0 <= k < entries.len() implies (#[trigger] parts[k]).provider_id
        == entries[k].id && parts[k].snapshot == arm_snapshot(
        entries[k].state,
        body_id,
        arm_model,
        seq,
        frame_times[k],
    ) by {}
}

} // verus!
