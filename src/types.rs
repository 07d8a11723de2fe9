//! The discovery request and response under their older module path.
pub use crate::envoy_types::{DiscoveryRequest, DiscoveryResponse};
