//! What calls of the frameworks give back of one another.
use vstd::prelude::*;

use crate::frameworks::core_animation::ca_gradient_layer::{Point, State};
use crate::frameworks::core_motion::{
    AccelerometerData, CMAcceleration, CMMotionManager, CMQuaternion, CMRotationMatrix,
    CMRotationRate, GyroData, MotionInputs,
};
use crate::frameworks::uikit::ui_event::{
    is_visible, new_event, new_event_including_ended, view_touches, visible_touches,
    window_touches, Touch, UIEventHostObject,
};

verus! {

/// Whether an event shows a touch: not nil, and not one that has ended unless
/// those are shown too.
pub open spec fn is_shown(touch: Touch, ended_too: bool) -> bool {
    touch.id != 0 && (ended_too || !touch.ended)
}

/// Whether `found` lists the touches at the indices `from`, in their order.
pub open spec fn are_picked(touches: Seq<Touch>, found: Seq<u32>, from: Seq<int>) -> bool {
    &&& from.len() == found.len()
    &&& forall|k: int, l: int| 0 <= k < l < from.len() ==> from[k] < from[l]
    &&& forall|k: int|
        0 <= k < from.len() ==> 0 <= #[trigger] from[k] < touches.len() && touches[from[k]].id
            == found[k]
}

/// Whether `found` lists just the touches that an event shows, in their order:
/// all of them, or those in one window or one view.
pub open spec fn are_the_shown(
    touches: Seq<Touch>,
    ended_too: bool,
    window: Option<u32>,
    view: Option<u32>,
    found: Seq<u32>,
    from: Seq<int>,
) -> bool {
    &&& are_picked(touches, found, from)
    &&& forall|i: int|
        0 <= i < touches.len() ==> (from.contains(i) <==> is_shown(
            #[trigger] touches[i],
            ended_too,
        ) && (window matches Some(w) ==> touches[i].window == w) && (view matches Some(v)
            ==> touches[i].view == v))
}

proof fn lemma_shown(
    touches: Seq<Touch>,
    ended_too: bool,
    window: Option<u32>,
    view: Option<u32>,
    count: int,
) -> (from: Seq<int>)
    requires
        0 <= count <= touches.len(),
        window is None || view is None,
    ensures
        ({
            let found = if let Some(w) = window {
                window_touches(touches, ended_too, w, count)
            } else if let Some(v) = view {
                view_touches(touches, ended_too, v, count)
            } else {
                visible_touches(touches, ended_too, count)
            };
            are_the_shown(touches.take(count), ended_too, window, view, found, from)
        }),
    decreases count,
{
    if count == 0 {
        Seq::empty()
    } else {
        let before = lemma_shown(touches, ended_too, window, view, count - 1);
        let last = touches[count - 1];
        let few = touches.take(count - 1);
        let all = touches.take(count);
        let fits = is_shown(last, ended_too) && (window matches Some(w) ==> last.window == w) && (
        view matches Some(v) ==> last.view == v);
        assert(is_shown(last, ended_too) == is_visible(last, ended_too));
        let from = if fits {
            before.push(count - 1)
        } else {
            before
        };
        assert forall|k: int| 0 <= k < from.len() implies 0 <= #[trigger] from[k] < all.len() && (k
            < before.len() ==> all[from[k]] == few[before[k]]) by {
            if k < before.len() {
                assert(0 <= before[k] < few.len());
            }
        }
        assert forall|i: int| 0 <= i < all.len() implies (from.contains(i) <==> is_shown(
            #[trigger] all[i],
            ended_too,
        ) && (window matches Some(w) ==> all[i].window == w) && (view matches Some(v)
            ==> all[i].view == v)) by {
            if i < count - 1 {
                assert(few[i] == all[i]);
                if before.contains(i) {
                    assert(from[before.index_of(i)] == i);
                }
                if from.contains(i) {
                    assert(before[from.index_of(i)] == i);
                }
            } else {
                if fits {
                    assert(from[before.len() as int] == i);
                }
                if from.contains(i) && !fits {
                    let k = from.index_of(i);
                    assert(0 <= before[k] < few.len());
                }
            }
        }
        from
    }
}

/// An event shows its touches in their order: all of them, those of a window,
/// or those of a view, of which there is only the first one if the view wants
/// no more. Touches that have ended are shown only by an event that was made
/// for their end.
pub proof fn events_show_their_touches(
    touches: Option<Vec<Touch>>,
    timestamp: u64,
    ended_too: bool,
    event: UIEventHostObject,
    all: Option<Vec<u32>>,
    recognized: Option<Vec<u32>>,
    window: u32,
    in_window: Vec<u32>,
    view: u32,
    in_view: Vec<u32>,
    first_in_view: Vec<u32>,
)
    requires
        ended_too ==> call_ensures(new_event_including_ended, (touches, timestamp), event),
        !ended_too ==> call_ensures(new_event, (touches, timestamp), event),
        call_ensures(UIEventHostObject::all_touches, (&event,), all),
        call_ensures(UIEventHostObject::touches_for_gesture_recognizer, (&event,), recognized),
        call_ensures(UIEventHostObject::touches_for_window, (&event, window), in_window),
        call_ensures(UIEventHostObject::touches_for_view, (&event, view, true), in_view),
        call_ensures(UIEventHostObject::touches_for_view, (&event, view, false), first_in_view),
    ensures
        event.timestamp == timestamp,
        all is Some <==> touches is Some,
        touches is None ==> in_window@.len() == 0 && in_view@.len() == 0 && first_in_view@.len()
            == 0 && recognized is None,
        touches matches Some(touches) ==> {
            &&& exists|from: Seq<int>|
                are_the_shown(touches@, ended_too, None, None, all.unwrap()@, from)
            &&& exists|from: Seq<int>|
                are_the_shown(touches@, ended_too, Some(window), None, in_window@, from)
            &&& exists|from: Seq<int>|
                are_the_shown(touches@, ended_too, None, Some(view), in_view@, from)
            &&& recognized matches Some(recognized) && recognized@ == all.unwrap()@
        },
        in_view@.len() == 0 ==> first_in_view@.len() == 0,
        in_view@.len() > 0 ==> first_in_view@ =~= seq![in_view@[0]],
{
    if let Some(touches) = touches {
        let seq = touches@;
        let count = seq.len() as int;
        assert(seq.take(count) =~= seq);
        let a = lemma_shown(seq, ended_too, None, None, count);
        let b = lemma_shown(seq, ended_too, Some(window), None, count);
        let c = lemma_shown(seq, ended_too, None, Some(view), count);
        assert(are_the_shown(seq, ended_too, None, None, all.unwrap()@, a));
        assert(are_the_shown(seq, ended_too, Some(window), None, in_window@, b));
        assert(are_the_shown(seq, ended_too, None, Some(view), in_view@, c));
    }
}

/// A property of a gradient layer is what it was last set to. Other properties
/// and other layers keep theirs.
pub proof fn gradient_properties_are_kept(
    colors: &mut State,
    start: &mut State,
    end: &mut State,
    layer: u32,
    new_colors: u32,
    old_colors: u32,
    points: (Point, Point),
    other: u32,
    found: (u32, Point, Point),
    before: (u32, Point, Point),
    after: (u32, Point, Point),
    had: u32,
)
    requires
        call_ensures(State::colors, (old(colors), layer), had),
        call_ensures(State::set_colors, (colors, layer, new_colors), old_colors),
        *old(start) == *final(colors),
        call_ensures(State::set_start_point, (start, layer, points.0), ()),
        *old(end) == *final(start),
        call_ensures(State::set_end_point, (end, layer, points.1), ()),
        call_ensures(State::colors, (final(end), layer), found.0),
        call_ensures(State::start_point, (final(end), layer), found.1),
        call_ensures(State::end_point, (final(end), layer), found.2),
        other != layer,
        call_ensures(State::colors, (old(colors), other), before.0),
        call_ensures(State::start_point, (old(colors), other), before.1),
        call_ensures(State::end_point, (old(colors), other), before.2),
        call_ensures(State::colors, (final(end), other), after.0),
        call_ensures(State::start_point, (final(end), other), after.1),
        call_ensures(State::end_point, (final(end), other), after.2),
    ensures
        found == (new_colors, points.0, points.1),
        old_colors == had,
        after == before,
{
}

/// A layer that was never set up, or was forgotten, has a vertical gradient
/// without colours. What it had is handed back.
pub proof fn forgotten_layers_have_defaults(
    state: &mut State,
    layer: u32,
    had: u32,
    colors: Option<u32>,
    found: (u32, Point, Point),
)
    requires
        call_ensures(State::colors, (old(state), layer), had),
        call_ensures(State::dealloc, (state, layer), colors),
        call_ensures(State::colors, (final(state), layer), found.0),
        call_ensures(State::start_point, (final(state), layer), found.1),
        call_ensures(State::end_point, (final(state), layer), found.2),
    ensures
        found == (
            0u32,
            Point { x: 0x3f00_0000, y: 0 },
            Point { x: 0x3f00_0000, y: 0x3f80_0000 },
        ),
        colors matches Some(c) ==> c == had,
        had != 0 ==> colors == Some(had),
{
}

/// Whether two registers hold a value, the lower half first.
pub open spec fn holds(regs: Seq<u32>, at: int, value: u64) -> bool {
    regs[2 * at] + 0x1_0000_0000 * regs[2 * at + 1] == value
}

/// Readings are passed in registers, two for each number and in their order,
/// and come out again as they went in.
pub proof fn readings_survive_registers(
    acceleration: CMAcceleration,
    rate: CMRotationRate,
    quaternion: CMQuaternion,
    a: Vec<u32>,
    r: Vec<u32>,
    q: Vec<u32>,
    in_a: &[u32],
    in_r: &[u32],
    in_q: &[u32],
    out_a: CMAcceleration,
    out_r: CMRotationRate,
    out_q: CMQuaternion,
)
    requires
        call_ensures(CMAcceleration::to_regs, (acceleration,), a),
        call_ensures(CMRotationRate::to_regs, (rate,), r),
        call_ensures(CMQuaternion::to_regs, (quaternion,), q),
        in_a@ == a@ && in_r@ == r@ && in_q@ == q@,
        call_ensures(CMAcceleration::from_regs, (in_a,), out_a),
        call_ensures(CMRotationRate::from_regs, (in_r,), out_r),
        call_ensures(CMQuaternion::from_regs, (in_q,), out_q),
    ensures
        a@.len() == 6 && holds(a@, 0, acceleration.x) && holds(a@, 1, acceleration.y) && holds(
            a@,
            2,
            acceleration.z,
        ),
        r@.len() == 6 && holds(r@, 0, rate.x) && holds(r@, 1, rate.y) && holds(r@, 2, rate.z),
        q@.len() == 8 && holds(q@, 0, quaternion.x) && holds(q@, 1, quaternion.y) && holds(
            q@,
            2,
            quaternion.z,
        ) && holds(q@, 3, quaternion.w),
        out_a == acceleration,
        out_r == rate,
        out_q == quaternion,
{
    let va = acceleration.values();
    let vr = rate.values();
    let vq = quaternion.values();
    crate::frameworks::core_motion::registers_round_trip(va, a@);
    crate::frameworks::core_motion::registers_round_trip(vr, r@);
    crate::frameworks::core_motion::registers_round_trip(vq, q@);
    assert(in_a@.take(6) =~= a@);
    assert(in_r@.take(6) =~= r@);
    assert(in_q@.take(8) =~= q@);
    assert(out_a.values() == va && out_r.values() == vr && out_q.values() == vq);
    assert(out_a.values()[0] == va[0] && out_a.values()[1] == va[1] && out_a.values()[2] == va[2]);
    assert(out_r.values()[0] == vr[0] && out_r.values()[1] == vr[1] && out_r.values()[2] == vr[2]);
    assert(out_q.values()[0] == vq[0] && out_q.values()[1] == vq[1] && out_q.values()[2] == vq[2]
        && out_q.values()[3] == vq[3]);
}

/// A matrix is passed row by row.
pub proof fn matrices_survive_registers(
    matrix: CMRotationMatrix,
    regs: Vec<u32>,
    again: &[u32],
    out: CMRotationMatrix,
)
    requires
        call_ensures(CMRotationMatrix::to_regs, (matrix,), regs),
        again@ == regs@,
        call_ensures(CMRotationMatrix::from_regs, (again,), out),
    ensures
        regs@.len() == 18,
        holds(regs@, 0, matrix.m11) && holds(regs@, 1, matrix.m12) && holds(regs@, 2, matrix.m13),
        holds(regs@, 3, matrix.m21) && holds(regs@, 4, matrix.m22) && holds(regs@, 5, matrix.m23),
        holds(regs@, 6, matrix.m31) && holds(regs@, 7, matrix.m32) && holds(regs@, 8, matrix.m33),
        out == matrix,
{
    let values = matrix.values();
    crate::frameworks::core_motion::registers_round_trip(values, regs@);
    assert(again@.take(18) =~= regs@);
    let got = out.values();
    assert(got == values);
    assert(got[0] == values[0] && got[1] == values[1] && got[2] == values[2]);
    assert(got[3] == values[3] && got[4] == values[4] && got[5] == values[5]);
    assert(got[6] == values[6] && got[7] == values[7] && got[8] == values[8]);
}

/// Readings are given only while their updates are on: those of the sensors, or
/// those of a device that lies flat and doesn't turn where there are none.
pub proof fn readings_are_given_while_updates_are_on(
    manager: &mut CMMotionManager,
    acceleration: Option<CMAcceleration>,
    rate: Option<CMRotationRate>,
    timestamp: u64,
    data: Option<AccelerometerData>,
    gyro: Option<GyroData>,
    motion: Option<MotionInputs>,
)
    requires
        call_ensures(CMMotionManager::gyro_data, (old(manager), rate, timestamp), gyro),
        call_ensures(
            CMMotionManager::device_motion_inputs,
            (old(manager), acceleration, rate),
            motion,
        ),
        call_ensures(
            CMMotionManager::accelerometer_data,
            (manager, acceleration, timestamp),
            data,
        ),
    ensures
        ({
            let flat = CMAcceleration { x: 0, y: 0, z: 0xbff0_0000_0000_0000 };
            let still = CMRotationRate { x: 0, y: 0, z: 0 };
            let felt = if acceleration is Some {
                acceleration.unwrap()
            } else {
                flat
            };
            let turned = if rate is Some {
                rate.unwrap()
            } else {
                still
            };
            &&& data == if old(manager).accelerometer_active {
                Some(AccelerometerData { acceleration: felt, timestamp })
            } else {
                None
            }
            &&& gyro == if old(manager).gyro_active {
                Some(GyroData { rotation_rate: turned, timestamp })
            } else {
                None
            }
            &&& motion == if old(manager).device_motion_active {
                Some(MotionInputs { acceleration: felt, rotation_rate: turned })
            } else {
                None
            }
            &&& old(manager).accelerometer_active ==> final(manager).last_acceleration == felt
                && final(manager).last_accel_timestamp == timestamp
            &&& !old(manager).accelerometer_active ==> *final(manager) == *old(manager)
        }),
{
}

/// An interval is used as it is asked for if it is more than zero, and one
/// hundredth of a second otherwise. The services have intervals of their own.
pub proof fn intervals_are_positive(
    accelerometer: &mut CMMotionManager,
    gyro: &mut CMMotionManager,
    motion: &mut CMMotionManager,
    intervals: (u64, u64, u64),
)
    requires
        call_ensures(
            CMMotionManager::set_accelerometer_update_interval,
            (accelerometer, intervals.0),
            (),
        ),
        *old(gyro) == *final(accelerometer),
        call_ensures(CMMotionManager::set_gyro_update_interval, (gyro, intervals.1), ()),
        *old(motion) == *final(gyro),
        call_ensures(
            CMMotionManager::set_device_motion_update_interval,
            (motion, intervals.2),
            (),
        ),
    ensures
        ({
            let now = *final(motion);
            &&& is_used(intervals.0, now.accelerometer_update_interval)
            &&& is_used(intervals.1, now.gyro_update_interval)
            &&& is_used(intervals.2, now.device_motion_update_interval)
            &&& now.accelerometer_active == old(accelerometer).accelerometer_active
            &&& now.gyro_active == old(accelerometer).gyro_active
            &&& now.device_motion_active == old(accelerometer).device_motion_active
            &&& now.last_acceleration == old(accelerometer).last_acceleration
        }),
{
}

/// Whether an interval is the one that is used for another one. Bit patterns up
/// to that of infinity are numbers of zero or more, and with the sign bit those
/// of zero or less.
pub open spec fn is_used(asked: u64, used: u64) -> bool {
    let zero_or_less = asked == 0 || (0x8000_0000_0000_0000 <= asked <= 0xfff0_0000_0000_0000);
    &&& zero_or_less ==> used == 0x3f84_7ae1_47ae_147b
    &&& !zero_or_less ==> used == asked
}

} // verus!
