//! The decision core of a console emulator's graphics and kernel layers.
//!
//! `gpu` holds what the display backend decides between two device calls: which
//! draws of a command list are recorded, which clears and barriers a submit needs,
//! how a frame is presented, and the byte formats around it.  `kernel` holds the
//! guest-visible rules of the process: direct memory, locks, files and modules.
//!
//! Nothing in here talks to a device, a file or a clock.  A caller performs the
//! step it is handed and gives the outcome back as a plain value.

pub mod arith;
pub mod bytes;
pub mod gpu;
pub mod kernel;
pub mod table;
pub mod text;
