//! Access-control core: RFID tag decoding on the reader, the sentinel line
//! protocol and session state machine, sentinel connection tracking, the
//! access decision engine, lock-command handling and the event bus.
pub mod access;
pub mod cookie;
pub mod events;
pub mod frame;
pub mod framing;
pub mod link;
pub mod lock;
pub mod protocol;
pub mod reader;
pub mod sentinels;
pub mod tag;
pub mod text;
