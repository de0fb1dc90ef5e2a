//! Trust establishment and session framing for a remote-accessibility relay
//! client.
//!
//! The crate holds the two pieces of the client that decide anything: the
//! store that pins a relay host to the certificate it once presented, and the
//! reader that turns the bytes of an encrypted channel into typed events.
//! Sockets, the handshake itself and the file system stay with the caller,
//! which hands this crate plain bytes and text.

pub mod hexcode;
pub mod text;
pub mod json;
pub mod error;
pub mod event;
pub mod framing;
pub mod fingerprint;
pub mod anchors;
pub mod remote;

pub use crate::error::NVDARemoteError;
pub use crate::event::{ConnectionType, EventCallback, EventLog, EventObserver, EventType};
pub use crate::fingerprint::FingerprintCache;
pub use crate::json::Json;
pub use crate::remote::{NVDARemote, NextStep, SessionState};
