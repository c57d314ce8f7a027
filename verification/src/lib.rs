//! Verified core of a desktop proxy manager: text handling, system proxy
//! command planning and parsing, configuration validation and the pure
//! decisions of the HTTP, SSH and tool services.

pub mod crypto;
pub mod error;
pub mod forwarding;
pub mod headers;
pub mod http_proxy;
pub mod json;
pub mod jumps;
pub mod keyed;
pub mod manager;
pub mod models;
pub mod proxy_status;
pub mod records;
pub mod rewrite;
pub mod ssh;
pub mod ssh_service;
pub mod startup;
pub mod system_proxy;
pub mod terminal;
pub mod text;
pub mod tool_manager;
pub mod tool_runtime;
pub mod tool_services;
pub mod tray;
pub mod urls;
pub mod validation;

use vstd::prelude::*;

verus! {

} // verus!
