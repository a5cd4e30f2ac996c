//! Traffic policy, token cache, TLS sniffing and admin socket logic of a sandbox proxy.

pub mod text;
pub mod net;
pub mod proto;
pub mod rbac;
pub mod firewall;
pub mod traffic_policy;
pub mod sniff;
pub mod encoding;
pub mod paths;
pub mod watcher;
pub mod sandbox;
pub mod admin;
