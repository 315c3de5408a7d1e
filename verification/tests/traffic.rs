use map_model::{TrafficBehavior, TrafficControl, TrafficLightSchedule};

#[test]
fn light_schedule_cycles_through_phases() {
    let light = TrafficControl::Light(TrafficLightSchedule::from_basic(10, 3, 7, 0));
    assert!(matches!(light.get_behavior(0), TrafficBehavior::GREEN));
    assert!(matches!(light.get_behavior(9), TrafficBehavior::GREEN));
    assert!(matches!(light.get_behavior(10), TrafficBehavior::ORANGE));
    assert!(matches!(light.get_behavior(12), TrafficBehavior::ORANGE));
    assert!(matches!(light.get_behavior(13), TrafficBehavior::RED));
    assert!(matches!(light.get_behavior(19), TrafficBehavior::RED));
    assert!(matches!(light.get_behavior(20), TrafficBehavior::GREEN));
}

#[test]
fn light_schedule_respects_offset() {
    let light = TrafficControl::Light(TrafficLightSchedule::from_basic(8, 2, 10, 10));
    assert!(matches!(light.get_behavior(0), TrafficBehavior::RED));
    assert!(matches!(light.get_behavior(10), TrafficBehavior::GREEN));
}

#[test]
fn always_green_and_stop_signs() {
    assert!(matches!(TrafficControl::Always.get_behavior(12345), TrafficBehavior::GREEN));
    assert!(matches!(TrafficControl::StopSign.get_behavior(0), TrafficBehavior::STOP));
    assert!(TrafficBehavior::RED.is_red());
    assert!(!TrafficBehavior::STOP.is_red());
    assert!(TrafficControl::Always.is_always());
    assert!(TrafficControl::StopSign.is_stop_sign());
    assert!(TrafficControl::Light(TrafficLightSchedule::from_basic(1, 1, 1, 0)).is_light());
}
