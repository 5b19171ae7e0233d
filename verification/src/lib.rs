//! Verified protocol logic of an Intel AMT provisioning tool: PTHI command
//! framing, HECI/HBM message handling, the APF port-forwarding protocol,
//! HTTP digest authentication and WS-Management request handling.

pub mod error;
pub mod str_util;
pub mod md5;
pub mod heci;
pub mod pci;
pub mod lme;
pub mod amt;
pub mod http;
pub mod wsman;
pub mod report;
pub mod ui;
pub mod retry;
