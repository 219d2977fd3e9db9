//! Fixed-capacity collections: a ring queue, room-sized bit and byte maps
//! with their run-length text encoding, and small indexed containers.
pub mod arrayqueue;
pub mod bitroomgrid;
pub mod container;
pub mod flaggrid;
pub mod fmt_error;
pub mod run_length;

pub use self::arrayqueue::{ArrayQueue, QueueError, QueueIterator};
pub use self::container::{Container, Index};
pub use self::bitroomgrid::{BitGrid, BitRoomGrid, BitRoomGrid1717, BitRoomGrid5050};
pub use self::flaggrid::{FlagGrid, FlagGrid1717};
