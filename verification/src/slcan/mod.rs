//! SLCAN (Serial Line CAN) protocol support.
//!
//! The pure Lawicel/SLCAN line codec lives in `logic`. The synchronous
//! `SerialPort`-based transport lives in `serial` and is suitable for
//! native serial ports, embedded UART adapters, or tests.

pub mod logic;
pub mod serial;

pub use logic::{encode_slcan_frame, has_slcan_frame, parse_slcan_frame, SlcanBitrate};
pub use serial::{SerialPort, SlcanTransport};
