//! The PS/2 controller's ports, commands and status bits, and the byte-wide
//! port access the driver is given.
use vstd::prelude::*;

verus! {

/// Data in both directions.
pub const PS2_DATA_PORT: u16 = 0x60;
/// Status register when read.
pub const PS2_STATUS_PORT: u16 = 0x64;
/// Controller commands when written.
pub const PS2_COMMAND_PORT: u16 = 0x64;

/// Controller command: enable the second (auxiliary) port.
pub const PS2_CMD_ENABLE_SECOND_PORT: u8 = 0xA8;
/// Controller command: send the next data byte to the auxiliary device.
pub const PS2_CMD_WRITE_TO_MOUSE: u8 = 0xD4;

/// Device command: restore default settings.
pub const MOUSE_CMD_SET_DEFAULTS: u8 = 0xF6;
/// Device command: start sending movement packets.
pub const MOUSE_CMD_ENABLE_PACKET_STREAMING: u8 = 0xF4;
/// Device command: report the device identifier.
pub const MOUSE_CMD_GET_DEVICE_ID: u8 = 0xF2;
/// Device command: the next byte is a sample rate.
pub const MOUSE_CMD_SET_SAMPLE_RATE: u8 = 0xF3;

/// The identifier of a device that has switched to four-byte packets.
pub const WHEEL_DEVICE_ID: u8 = 3;

/// Status bit: the output buffer holds a byte for the host.
pub const STATUS_OUTPUT_FULL: u8 = 0x01;
/// Status bit: the input buffer still holds a byte for the controller.
pub const STATUS_INPUT_FULL: u8 = 0x02;
/// Status bit: the byte in the output buffer comes from the auxiliary device.
pub const STATUS_FROM_MOUSE: u8 = 0x20;

/// How many times a status register is polled before giving up.
pub const POLL_LIMIT: u32 = 1000;

/// Byte-wide access to I/O ports. Nothing is known of what a read returns.
pub trait PortIo {
    fn read_byte(&mut self, port: u16) -> u8;

    fn write_byte(&mut self, port: u16, value: u8);
}

/// Whether a status byte shows a byte from the mouse ready to be read.
pub open spec fn mouse_byte_ready(status: u8) -> bool {
    status & STATUS_OUTPUT_FULL != 0 && status & STATUS_FROM_MOUSE != 0
}

/// Whether a status byte shows the controller ready to take a byte.
pub open spec fn input_ready(status: u8) -> bool {
    status & STATUS_INPUT_FULL == 0
}

/// Whether `status` shows a byte from the mouse ready to be read.
pub fn status_mouse_byte_ready(status: u8) -> (r: bool)
    ensures
        r == mouse_byte_ready(status),
{
    (status & STATUS_OUTPUT_FULL) != 0 && (status & STATUS_FROM_MOUSE) != 0
}

/// Whether `status` shows the controller ready to take a byte.
pub fn status_input_ready(status: u8) -> (r: bool)
    ensures
        r == input_ready(status),
{
    (status & STATUS_INPUT_FULL) == 0
}

} // verus!
