//! Verified core of a bit-banged SPI NOR flash programmer.
//!
//! The library models the flash chip's byte-level command protocol
//! (wake, status, write-enable, page-program, block-erase, read), the
//! page/block programming algorithm with busy polling, and the
//! verify-by-readback pass.  The hardware itself is reached through the
//! `FlashPort` trait; `SimFlash` is a verified in-memory implementation
//! of that trait with NOR semantics (erase sets bits, program clears
//! bits), against which the whole driver is proved.

pub mod model;
pub mod programmer;
pub mod session;
pub mod sim;
pub mod spi;

pub use model::FlashPort;
pub use model::BLOCK_SIZE;
pub use model::PAGE_SIZE;
pub use programmer::dump;
pub use programmer::FlashError;
pub use programmer::FlashProgrammer;
pub use session::release_actions;
pub use session::startup_actions;
pub use session::PinAction;
pub use session::PinMap;
pub use sim::SimFlash;
pub use spi::bits_to_byte;
pub use spi::byte_to_bits;
