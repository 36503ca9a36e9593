//! Registry core of a chat operations bot: wake-on-LAN targets and managed
//! services, each gated by a per-record authorization list, persisted as one
//! JSON document.
pub mod codec;
pub mod config;
pub mod data;
pub mod ids;
pub mod json;
pub mod mac;
pub mod registry;
pub mod servitor;
pub mod store;
pub mod text;
pub mod wake_on_lan;
