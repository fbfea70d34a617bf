//! A software serial transceiver (one start bit, eight data bits least
//! significant first, one stop bit), paced by a periodic timer.
//!
//! The framing decisions are pure state machines: each hands out the next
//! pin or timer operation and takes back how it went.
pub mod frame;
pub mod laws;
pub mod receive;
pub mod serial;
pub mod transmit;
