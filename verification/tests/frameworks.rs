use touchhle::frameworks::core_animation::ca_gradient_layer::{GradientProps, Point, State};
use touchhle::frameworks::core_motion::{
    AccelerometerData, CMAcceleration, CMMotionManager, CMQuaternion, CMRotationMatrix,
    CMRotationRate, GyroData, MotionInputs,
};
use touchhle::frameworks::uikit::ui_event::{
    filtered_touches_for_event, new_event, new_event_including_ended, touch_visible_for_event,
    Touch,
};
use touchhle::mem::{Mem, MutPtr, Ptr};

#[test]
fn gradient_properties_are_kept_per_layer() {
    let mut state = State::default();
    let default = GradientProps::default();
    assert_eq!(default.start, Point { x: 0.5f32.to_bits(), y: 0 });
    assert_eq!(default.end, Point { x: 0.5f32.to_bits(), y: 1.0f32.to_bits() });
    assert_eq!((state.start_point(1), state.end_point(1), state.colors(1)), (default.start, default.end, 0));
    let point = Point { x: 7, y: 8 };
    state.set_start_point(1, point);
    assert_eq!((state.start_point(1), state.end_point(1)), (point, default.end));
    state.set_end_point(1, point);
    assert_eq!(state.set_colors(1, 100), 0);
    assert_eq!(state.set_colors(1, 200), 100);
    assert_eq!((state.colors(1), state.end_point(1), state.start_point(2)), (200, point, default.start));
    assert_eq!(state.dealloc(2), None);
    assert_eq!(state.dealloc(1), Some(200));
    assert_eq!((state.colors(1), state.start_point(1)), (0, default.start));
    assert_eq!(state.gradient_type(), "kCAGradientLayerAxial");
}

fn touch(id: u32, view: u32, window: u32, ended: bool) -> Touch {
    Touch { id, view, window, ended }
}

#[test]
fn events_hide_touches_that_ended() {
    let touches = || Some(vec![touch(1, 10, 20, false), touch(2, 10, 20, true), touch(0, 10, 20, false), touch(3, 11, 21, false)]);
    let event = new_event(touches(), 5);
    assert_eq!(event.timestamp, 5);
    assert_eq!(event.all_touches(), Some(vec![1, 3]));
    assert_eq!(event.touches_for_view(10, true), vec![1]);
    assert_eq!(event.touches_for_window(21), vec![3]);
    let ending = new_event_including_ended(touches(), 6);
    assert_eq!(ending.all_touches(), Some(vec![1, 2, 3]));
    assert_eq!(ending.touches_for_view(10, true), vec![1, 2]);
    assert_eq!(ending.touches_for_view(10, false), vec![1]);
    assert_eq!(ending.touches_for_view(99, false), Vec::<u32>::new());
    assert_eq!(ending.touches_for_window(20), vec![1, 2]);
    assert_eq!(ending.touches_for_gesture_recognizer(), Some(vec![1, 2, 3]));
    assert_eq!((ending.event_type(), ending.subtype()), (0, 0));
    let none = new_event(None, 0);
    assert_eq!(none.all_touches(), None);
    assert_eq!(none.touches_for_view(1, true), Vec::<u32>::new());
    assert_eq!(none.touches_for_window(1), Vec::<u32>::new());
    assert_eq!(filtered_touches_for_event(&None, true), None);
    assert!(!touch_visible_for_event(&touch(0, 1, 1, false), true));
}

#[test]
fn motion_values_pass_through_registers() {
    let value = CMAcceleration { x: 1.5f64.to_bits(), y: 0x1122_3344_5566_7788, z: 3 };
    let regs = value.to_regs();
    assert_eq!(regs.len(), CMAcceleration::REG_COUNT);
    assert_eq!((regs[2], regs[3]), (0x5566_7788, 0x1122_3344));
    assert_eq!(CMAcceleration::from_regs(&regs), value);
    let rate = CMRotationRate { x: 1, y: 1 << 40, z: u64::MAX };
    assert_eq!(CMRotationRate::from_regs(&rate.to_regs()), rate);
    let quaternion = CMQuaternion { x: 1, y: 2, z: 3, w: 1 << 32 };
    assert_eq!(quaternion.to_regs(), vec![1, 0, 2, 0, 3, 0, 0, 1]);
    assert_eq!(CMQuaternion::from_regs(&quaternion.to_regs()), quaternion);
    let matrix = CMRotationMatrix { m11: 1, m12: 2, m13: 3, m21: 4, m22: 5, m23: 6, m31: 7, m32: 8, m33: 9 };
    assert_eq!(matrix.to_regs().len(), CMRotationMatrix::REG_COUNT);
    assert_eq!(CMRotationMatrix::from_regs(&matrix.to_regs()), matrix);
}

#[test]
fn motion_values_pass_through_memory() {
    let mut mem = Mem::new();
    let matrix = CMRotationMatrix { m11: 1, m12: 2, m13: 3, m21: 4, m22: 5, m23: 6, m31: 7, m32: 8, m33: 9 };
    let p: MutPtr<CMRotationMatrix> = mem.alloc_and_write(matrix);
    assert_eq!(mem.read(p), matrix);
    assert_eq!(mem.read(Ptr::<u64, true>::from_bits(p.to_bits() + 8 * 4)), 5);
    let q: MutPtr<CMAcceleration> = mem.alloc_and_write(CMAcceleration { x: 7, y: 8, z: 9 });
    assert_eq!(mem.read(q), CMAcceleration { x: 7, y: 8, z: 9 });
    let r: MutPtr<CMQuaternion> = mem.alloc_and_write(CMQuaternion { x: 7, y: 8, z: 9, w: 10 });
    assert_eq!(mem.read(r.cast::<CMRotationRate>()), CMRotationRate { x: 7, y: 8, z: 9 });
    assert_eq!(mem.read(r), CMQuaternion { x: 7, y: 8, z: 9, w: 10 });
}

#[test]
fn motion_updates_are_off_at_first() {
    let mut manager = CMMotionManager::new();
    assert_eq!(manager.accelerometer_update_interval, (1.0f64 / 60.0).to_bits());
    assert_eq!(manager.accelerometer_data(None, 1), None);
    assert_eq!(manager.gyro_data(None, 1), None);
    assert_eq!(manager.device_motion_inputs(None, None), None);
    manager.accelerometer_active = true;
    manager.gyro_active = true;
    manager.device_motion_active = true;
    let resting = CMAcceleration { x: 0, y: 0, z: (-1.0f64).to_bits() };
    let stationary = CMRotationRate { x: 0, y: 0, z: 0 };
    assert_eq!(manager.accelerometer_data(None, 2), Some(AccelerometerData { acceleration: resting, timestamp: 2 }));
    let measured = CMAcceleration { x: 1, y: 2, z: 3 };
    let data = manager.accelerometer_data(Some(measured), 3).unwrap();
    assert_eq!((data.acceleration, manager.last_acceleration, manager.last_accel_timestamp), (measured, measured, 3));
    assert_eq!(manager.gyro_data(None, 4), Some(GyroData { rotation_rate: stationary, timestamp: 4 }));
    let rate = CMRotationRate { x: 1, y: 2, z: 3 };
    assert_eq!(manager.gyro_data(Some(rate), 4).unwrap().rotation_rate, rate);
    assert_eq!(
        manager.device_motion_inputs(Some(measured), None),
        Some(MotionInputs { acceleration: measured, rotation_rate: stationary })
    );
}

#[test]
fn motion_intervals_are_positive() {
    let mut manager = CMMotionManager::new();
    let hundredth = (1.0f64 / 100.0).to_bits();
    for interval in [0.0f64, -0.0, -1.0, f64::NEG_INFINITY] {
        manager.set_accelerometer_update_interval(interval.to_bits());
        manager.set_gyro_update_interval(interval.to_bits());
        manager.set_device_motion_update_interval(interval.to_bits());
        assert_eq!(manager.accelerometer_update_interval, hundredth);
        assert_eq!(manager.gyro_update_interval, hundredth);
        assert_eq!(manager.device_motion_update_interval, hundredth);
    }
    for interval in [0.5f64, f64::MIN_POSITIVE, f64::INFINITY, f64::NAN, -f64::NAN] {
        manager.set_gyro_update_interval(interval.to_bits());
        assert_eq!(manager.gyro_update_interval, interval.to_bits());
    }
}
