use sense_hat::error::Error;
use sense_hat::sensor::SensorState;

#[test]
fn sensor_starts_uninitialized_and_cannot_be_read() {
    let state = SensorState::Uninitialized;
    assert!(!state.can_read());
}

#[test]
fn failed_init_leaves_the_sensor_unready() {
    let state = SensorState::Uninitialized.after_init(false);
    assert_eq!(state, SensorState::Uninitialized);
    assert!(!state.can_read());
}

#[test]
fn successful_init_makes_the_sensor_ready() {
    let state = SensorState::Uninitialized.after_init(true);
    assert_eq!(state, SensorState::Ready);
    assert!(state.can_read());
}

#[test]
fn ready_state_is_never_undone() {
    let state = SensorState::Ready.after_init(false);
    assert_eq!(state, SensorState::Ready);
    assert!(state.can_read());
}

#[test]
fn error_carries_its_message() {
    let e = Error { message: String::from("Sensor is not initialized") };
    assert_eq!(e.message_text(), "Sensor is not initialized");
}
