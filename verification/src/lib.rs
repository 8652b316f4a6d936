//! EasyShare: clipboard synchronisation and file transfer between the devices
//! of one EasyTier virtual network, as a verified library.
//!
//! Devices talk over TCP in length-prefixed frames, each holding a protobuf
//! envelope around a clipboard entry or a piece of a file transfer.
//!
//! Modules:
//! - [`wire`]: the protobuf wire format (varints, field keys, field values).
//! - [`proto`]: the messages exchanged between devices and the length-prefixed frame.
//! - [`api`]: the service state of a process and what each API call does to it.
//! - [`handler`]: what a device does with each frame it receives.
//! - [`file_transfer`]: the frames of a file transfer, joining received chunks, SHA-256.
//! - [`clipboard`]: which clipboard readings are changes to send; images to PNG and back.
//! - [`client`]: peer addresses and the pool of open connections.
//! - [`peer_discovery`]: which routes of the virtual network lead to peers.
//! - [`text`]: character-level helpers (trimming, path segments, digits).

pub mod api;
pub mod client;
pub mod clipboard;
pub mod file_transfer;
pub mod handler;
pub mod peer_discovery;
pub mod proto;
pub mod text;
pub mod wire;

use vstd::prelude::*;

verus! {

/// Default TCP port of the service (it runs on top of the virtual network).
pub const DEFAULT_PORT: u16 = 12000;

} // verus!
