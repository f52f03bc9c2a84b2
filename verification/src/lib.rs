//! Verified control-plane logic of a StartWRT router: wired 802.1X
//! configuration and its RADIUS user database, the satellite-router role and
//! registry, and the Core-side planning of site-to-site WireGuard tunnels.
//!
//! Reading and writing files, running services and the RPC surface belong to
//! the caller; everything here works on plain values.

pub mod text;
pub mod addr;
pub mod commit;
pub mod dot1x;
pub mod satellite;
pub mod vpn_site;
pub mod json;
