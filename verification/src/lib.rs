//! Verified core of the Rarog web engine: event-loop scheduling, script
//! identities, WebSocket protocol state, WebIDL metadata, platform value
//! types, process topology and storage accounting.

pub mod accessibility;
pub mod checkpoint;
pub mod fresh;
pub mod keyed;
pub mod opentype;
pub mod order;
pub mod origin;
pub mod platform;
pub mod process;
pub mod resources;
pub mod scheduler;
pub mod scroll;
pub mod script;
pub mod storage;
pub mod storage_protocol;
pub mod storage_transaction;
pub mod text;
pub mod web_url;
pub mod webgl;
pub mod webidl;
pub mod webidl_binding;
pub mod webidl_standards;
pub mod websocket;
pub mod websocket_queue;
pub mod windows_accessibility;
pub mod windows_ipc;
pub mod windows_platform;
pub mod windows_process;
