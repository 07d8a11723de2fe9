//! A template-driven xDS control plane: instance bucketing, template
//! resolution and conditional discovery responses, with their contracts.
pub mod json;
pub mod text;
pub mod config;
pub mod context;
pub mod sources;
pub mod templates;
pub mod envoy_types;
pub mod handler;
pub mod cluster_service;
pub mod types;
