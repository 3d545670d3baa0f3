use ps2_mouse::decoder::{extend_delta, saturating_add_i16};
use ps2_mouse::ps2::{status_input_ready, status_mouse_byte_ready};
use ps2_mouse::{DeviceState, MouseError, QemuExitCode};

#[test]
fn exit_codes() {
    assert_eq!(QemuExitCode::Success.code(), 0x10);
    assert_eq!(QemuExitCode::Failed.code(), 0x11);
}

#[test]
fn error_reasons() {
    assert_eq!(MouseError::Timeout.reason(), "Mouse read timeout");
    assert_eq!(MouseError::UnsupportedFeature.reason(), "Wheel not supported");
}

#[test]
fn decode_packet_on_state() {
    let mut state = DeviceState::new();
    assert_eq!(state.decode_packet(&[0x0C, 0, 0, 0]), Some(ps2_mouse::MouseEvent::ButtonPressed(ps2_mouse::MouseButton::Middle)));
    assert!(state.middle_button);
    // Without a wheel, byte 3 is never read.
    assert_eq!(state.decode_packet(&[0x0C, 0, 0, 1]), None);
    state.has_wheel = true;
    assert_eq!(state.decode_packet(&[0x0C, 0, 0, 0x7F]), Some(ps2_mouse::MouseEvent::WheelUp));
    assert_eq!(state.decode_packet(&[0x0C, 0, 0, 0x80]), Some(ps2_mouse::MouseEvent::WheelDown));
}

#[test]
fn status_bits() {
    assert!(status_mouse_byte_ready(0x21));
    assert!(!status_mouse_byte_ready(0x01));
    assert!(!status_mouse_byte_ready(0x20));
    assert!(status_input_ready(0x00));
    assert!(!status_input_ready(0x02));
}

#[test]
fn delta_helpers() {
    assert_eq!(extend_delta(0xFF, true), -1);
    assert_eq!(extend_delta(0x00, true), -256);
    assert_eq!(extend_delta(0xFF, false), 255);
    assert_eq!(saturating_add_i16(i16::MAX - 1, 255), i16::MAX);
    assert_eq!(saturating_add_i16(i16::MIN + 1, -256), i16::MIN);
    assert_eq!(saturating_add_i16(10, -3), 7);
}
