//! Decoding of a completed movement packet into at most one event.
//!
//! Byte 0 of a packet holds flags: bits 0, 1 and 2 are the left, right and
//! middle buttons, bit 3 must always be set, bits 4 and 5 are the sign bits
//! of the x and y deltas. Bytes 1 and 2 hold the low eight bits of the
//! deltas. A four-byte packet adds a signed wheel movement in byte 3.
use crate::event::{MouseButton, MouseEvent};
use vstd::prelude::*;

verus! {

pub const FLAG_LEFT: u8 = 0x01;
pub const FLAG_RIGHT: u8 = 0x02;
pub const FLAG_MIDDLE: u8 = 0x04;
pub const FLAG_ALWAYS_ONE: u8 = 0x08;
pub const FLAG_X_SIGN: u8 = 0x10;
pub const FLAG_Y_SIGN: u8 = 0x20;

/// What the driver remembers between packets.
#[derive(Debug, Clone, Copy, PartialEq, Eq, Structural)]
pub struct DeviceState {
    pub left_button: bool,
    pub right_button: bool,
    pub middle_button: bool,
    pub x_position: i16,
    pub y_position: i16,
    pub has_wheel: bool,
}

/// The 9-bit two's-complement value made of `low` and a separate sign bit.
pub open spec fn sign_extend(low: u8, negative: bool) -> int {
    if negative {
        low as int - 256
    } else {
        low as int
    }
}

/// Whether the framing bit of a flags byte is set.
pub open spec fn is_framed(flags: u8) -> bool {
    flags & FLAG_ALWAYS_ONE != 0
}

/// The horizontal movement a packet reports.
pub open spec fn packet_delta_x(packet: Seq<u8>) -> int {
    sign_extend(packet[1], packet[0] & FLAG_X_SIGN != 0)
}

/// The vertical movement a packet reports, turned to grow downwards.
pub open spec fn packet_delta_y(packet: Seq<u8>) -> int {
    -sign_extend(packet[2], packet[0] & FLAG_Y_SIGN != 0)
}

/// `v` clamped to the range of `i16`.
pub open spec fn saturate_i16(v: int) -> i16 {
    if v > i16::MAX {
        i16::MAX
    } else if v < i16::MIN {
        i16::MIN
    } else {
        v as i16
    }
}

/// The wheel byte read as a signed 8-bit value.
pub open spec fn wheel_delta(b: u8) -> int {
    if b < 128 {
        b as int
    } else {
        b as int - 256
    }
}

/// The event for a button that now reads `down`.
pub open spec fn button_edge(button: MouseButton, down: bool) -> MouseEvent {
    if down {
        MouseEvent::ButtonPressed(button)
    } else {
        MouseEvent::ButtonReleased(button)
    }
}

/// The state after a framed packet has moved the pointer, before buttons.
pub open spec fn moved(s: DeviceState, packet: Seq<u8>) -> DeviceState {
    DeviceState {
        x_position: saturate_i16(s.x_position + packet_delta_x(packet)),
        y_position: saturate_i16(s.y_position + packet_delta_y(packet)),
        ..s
    }
}

/// The new state and the event of one completed packet.
///
/// A packet without its framing bit changes nothing. Otherwise the position
/// moves, and the first button, in the order left, right, middle, whose bit
/// differs from the remembered state flips and is reported alone. With no
/// button change the wheel is reported, then a nonzero movement.
pub open spec fn decode(s: DeviceState, packet: Seq<u8>) -> (DeviceState, Option<MouseEvent>) {
    let flags = packet[0];
    let m = moved(s, packet);
    let left = flags & FLAG_LEFT != 0;
    let right = flags & FLAG_RIGHT != 0;
    let middle = flags & FLAG_MIDDLE != 0;
    let dx = packet_delta_x(packet);
    let dy = packet_delta_y(packet);
    if !is_framed(flags) {
        (s, None)
    } else if left != s.left_button {
        (DeviceState { left_button: left, ..m }, Some(button_edge(MouseButton::Left, left)))
    } else if right != s.right_button {
        (DeviceState { right_button: right, ..m }, Some(button_edge(MouseButton::Right, right)))
    } else if middle != s.middle_button {
        (DeviceState { middle_button: middle, ..m }, Some(button_edge(MouseButton::Middle, middle)))
    } else if s.has_wheel && wheel_delta(packet[3]) > 0 {
        (m, Some(MouseEvent::WheelUp))
    } else if s.has_wheel && wheel_delta(packet[3]) < 0 {
        (m, Some(MouseEvent::WheelDown))
    } else if dx != 0 || dy != 0 {
        (m, Some(MouseEvent::Move { delta_x: dx as i16, delta_y: dy as i16 }))
    } else {
        (m, None)
    }
}

/// The state after the same packet has been decoded `n` times in a row.
pub open spec fn decode_repeated(s: DeviceState, packet: Seq<u8>, n: nat) -> DeviceState
    decreases n,
{
    if n == 0 {
        s
    } else {
        decode(decode_repeated(s, packet, (n - 1) as nat), packet).0
    }
}

/// A packet without its framing bit yields no event and leaves the state
/// exactly as it was.
pub proof fn lemma_unframed_packet_ignored(s: DeviceState, packet: Seq<u8>)
    requires
        packet.len() >= 3,
        !is_framed(packet[0]),
    ensures
        decode(s, packet) == (s, None::<MouseEvent>),
{
}

/// For a framed packet that changes no button and has no wheel byte to read,
/// the decoded movement is the x byte and the negated y byte taken as
/// unsigned values when their sign bits are clear, and as 9-bit two's
/// complement values (the byte minus 256) when they are set; the position
/// moves by that amount and a nonzero movement is reported as such.
pub proof fn lemma_decoded_movement(s: DeviceState, packet: Seq<u8>)
    requires
        packet.len() >= 3,
        is_framed(packet[0]),
        (packet[0] & FLAG_LEFT != 0) == s.left_button,
        (packet[0] & FLAG_RIGHT != 0) == s.right_button,
        (packet[0] & FLAG_MIDDLE != 0) == s.middle_button,
        !s.has_wheel,
    ensures
        ({
            let dx: int = if packet[0] & FLAG_X_SIGN == 0 {
                packet[1] as int
            } else {
                packet[1] as int - 256
            };
            let dy: int = if packet[0] & FLAG_Y_SIGN == 0 {
                -(packet[2] as int)
            } else {
                256 - packet[2] as int
            };
            &&& decode(s, packet).0 == DeviceState {
                x_position: saturate_i16(s.x_position + dx),
                y_position: saturate_i16(s.y_position + dy),
                ..s
            }
            &&& decode(s, packet).1 == if dx != 0 || dy != 0 {
                Some(MouseEvent::Move { delta_x: dx as i16, delta_y: dy as i16 })
            } else {
                None
            }
        }),
{
}

/// The position never wraps: decoding the same framed packet again and again
/// adds its movement each time, clamped at the bounds of `i16`. With a
/// movement towards positive values the position rises to `i16::MAX` and
/// stays there.
pub proof fn lemma_position_saturates(s: DeviceState, packet: Seq<u8>, n: nat)
    requires
        packet.len() >= 3,
        is_framed(packet[0]),
    ensures
        packet_delta_x(packet) >= 0 ==> decode_repeated(s, packet, n).x_position == saturate_i16(
            s.x_position + n * packet_delta_x(packet),
        ),
        packet_delta_y(packet) >= 0 ==> decode_repeated(s, packet, n).y_position == saturate_i16(
            s.y_position + n * packet_delta_y(packet),
        ),
    decreases n,
{
    if n > 0 {
        let m = (n - 1) as nat;
        lemma_position_saturates(s, packet, m);
        let dx = packet_delta_x(packet);
        let dy = packet_delta_y(packet);
        assert(m * dx + dx == n * dx) by (nonlinear_arith)
            requires
                n == m + 1,
        ;
        assert(m * dy + dy == n * dy) by (nonlinear_arith)
            requires
                n == m + 1,
        ;
        if dx >= 0 {
            assert(m * dx >= 0) by (nonlinear_arith)
                requires
                    dx >= 0,
            ;
        }
        if dy >= 0 {
            assert(m * dy >= 0) by (nonlinear_arith)
                requires
                    dy >= 0,
            ;
        }
    }
}

/// Adds `delta` to `value`, stopping at the bounds of `i16`.
pub fn saturating_add_i16(value: i16, delta: i16) -> (r: i16)
    ensures
        r == saturate_i16(value + delta),
{
    let sum: i32 = value as i32 + delta as i32;
    if sum > i16::MAX as i32 {
        i16::MAX
    } else if sum < i16::MIN as i32 {
        i16::MIN
    } else {
        sum as i16
    }
}

/// Extends a delta byte to 16 bits using its separate sign bit.
pub fn extend_delta(low: u8, negative: bool) -> (r: i16)
    ensures
        r == sign_extend(low, negative),
{
    if negative {
        // Setting the high byte to 0xFF is subtracting 256 from the byte.
        low as i16 - 256
    } else {
        low as i16
    }
}

impl DeviceState {
    /// All buttons released, pointer at the origin, no wheel.
    pub fn new() -> (r: DeviceState)
        ensures
            !r.left_button && !r.right_button && !r.middle_button,
            r.x_position == 0 && r.y_position == 0,
            !r.has_wheel,
    {
        DeviceState {
            left_button: false,
            right_button: false,
            middle_button: false,
            x_position: 0,
            y_position: 0,
            has_wheel: false,
        }
    }

    /// Applies one completed packet: bytes 0 to 2, and byte 3 when the device
    /// has a wheel.
    pub fn decode_packet(&mut self, packet: &[u8; 4]) -> (r: Option<MouseEvent>)
        ensures
            (*final(self), r) == decode(*old(self), packet@),
    {
        let flags = packet[0];
        if flags & FLAG_ALWAYS_ONE == 0 {
            return None;
        }
        let delta_x = extend_delta(packet[1], flags & FLAG_X_SIGN != 0);
        let delta_y = -extend_delta(packet[2], flags & FLAG_Y_SIGN != 0);

        self.x_position = saturating_add_i16(self.x_position, delta_x);
        self.y_position = saturating_add_i16(self.y_position, delta_y);

        let left = flags & FLAG_LEFT != 0;
        let right = flags & FLAG_RIGHT != 0;
        let middle = flags & FLAG_MIDDLE != 0;

        if left != self.left_button {
            self.left_button = left;
            return Some(
                if left {
                    MouseEvent::ButtonPressed(MouseButton::Left)
                } else {
                    MouseEvent::ButtonReleased(MouseButton::Left)
                },
            );
        }
        if right != self.right_button {
            self.right_button = right;
            return Some(
                if right {
                    MouseEvent::ButtonPressed(MouseButton::Right)
                } else {
                    MouseEvent::ButtonReleased(MouseButton::Right)
                },
            );
        }
        if middle != self.middle_button {
            self.middle_button = middle;
            return Some(
                if middle {
                    MouseEvent::ButtonPressed(MouseButton::Middle)
                } else {
                    MouseEvent::ButtonReleased(MouseButton::Middle)
                },
            );
        }
        if self.has_wheel {
            let wheel = packet[3];
            if 1 <= wheel && wheel < 128 {
                return Some(MouseEvent::WheelUp);
            } else if wheel >= 128 {
                return Some(MouseEvent::WheelDown);
            }
        }
        if delta_x != 0 || delta_y != 0 {
            return Some(MouseEvent::Move { delta_x, delta_y });
        }
        None
    }
}

} // verus!
