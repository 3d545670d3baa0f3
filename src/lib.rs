//! A PS/2 mouse driver core: command transport, device initialization,
//! packet assembly and event decoding, together with a few small kernel
//! data definitions.
pub mod decoder;
pub mod event;
pub mod mouse;
pub mod packet;
pub mod ps2;
pub mod qemu;
pub mod x86;

pub use decoder::DeviceState;
pub use event::{MouseButton, MouseEvent};
pub use mouse::{Mouse, MouseError, Ps2Controller};
pub use packet::PacketAssembler;
pub use ps2::PortIo;
pub use qemu::QemuExitCode;
