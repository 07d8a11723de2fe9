//! The shape of the control plane's configuration.
use vstd::prelude::*;

use crate::context::TemplateContext;
use crate::sources::Source;
use crate::templates::XdsTemplate;

verus! {

/// Names the instance field whose value selects the buckets an instance
/// goes to; its presence turns on keyed mode.
pub struct NodeMatching {
    pub source_key: String,
}

/// The named context entries and the seconds between two loads of them.
pub struct TemplateContextConfig {
    pub items: Vec<(String, TemplateContext)>,
    pub interval_secs: u64,
}

/// The instance sources, in their configured order, and the seconds
/// between two polls of them.
pub struct SourceConfig {
    pub items: Vec<Source>,
    pub interval_secs: u64,
}

/// The whole configuration.
pub struct Settings {
    pub templates: Vec<XdsTemplate>,
    pub sources: Option<SourceConfig>,
    pub template_context: Option<TemplateContextConfig>,
    pub node_matching: Option<NodeMatching>,
}

/// The interval used where the configuration gives none.
pub const DEFAULT_INTERVAL_SECS: u64 = 30;

} // verus!
