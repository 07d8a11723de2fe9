//! The discovery request and response, as the control plane reads and
//! writes them.
use vstd::prelude::*;

use crate::json::Json;
use crate::text::{decimal, decimal_string};

verus! {

/// A version number given as its three parts.
#[derive(PartialEq, Eq, Structural, Clone, Copy, Debug)]
pub struct SemanticVersion {
    pub major_number: u8,
    pub minor_number: u8,
    pub patch: u8,
}

impl SemanticVersion {
    /// `major.minor.patch`, each part in decimal.
    pub open spec fn spec_text(self) -> Seq<char> {
        decimal(self.major_number as nat) + seq!['.'] + decimal(self.minor_number as nat) + seq![
            '.',
        ] + decimal(self.patch as nat)
    }

    /// The dotted text of this version.
    pub fn text(&self) -> (r: String)
        ensures
            r@ == self.spec_text(),
    {
        let mut r = decimal_string(self.major_number as u64);
        proof {
            reveal_strlit(".");
        }
        r.append(".");
        let minor = decimal_string(self.minor_number as u64);
        r.append(minor.as_str());
        r.append(".");
        let patch = decimal_string(self.patch as u64);
        r.append(patch.as_str());
        r
    }
}

/// The structured build version a node may report.
pub struct BuildVersion {
    pub version: SemanticVersion,
}

pub struct Locality {
    pub region: Option<String>,
    pub zone: Option<String>,
    pub sub_zone: Option<String>,
}

/// The requesting Envoy node.
pub struct Node {
    pub id: Option<String>,
    pub cluster: String,
    pub metadata: Vec<(String, Json)>,
    pub build_version: Option<String>,
    pub locality: Option<Locality>,
    pub user_agent_build_version: Option<BuildVersion>,
}

/// A state-of-the-world discovery request.
pub struct DiscoveryRequest {
    pub node: Node,
    pub resource_names: Option<Vec<String>>,
    pub version_info: Option<String>,
}

impl DiscoveryRequest {
    /// The Envoy version a request names: `build_version` when present,
    /// else the text of `user_agent_build_version`, else none.
    pub open spec fn requested_version(&self) -> Option<Seq<char>> {
        match self.node.build_version {
            Some(v) => Some(v@),
            None => match self.node.user_agent_build_version {
                Some(b) => Some(b.version.spec_text()),
                None => None,
            },
        }
    }

    /// A request from `cluster` for `version`, as a client that has seen
    /// version `0` sends it.
    pub fn new(cluster: String, version: String, resource_names: Option<Vec<String>>) -> (r: Self)
        ensures
            r.node.cluster == cluster,
            r.node.build_version == Some(version),
            r.node.user_agent_build_version is None,
            r.node.id is None,
            r.node.locality is None,
            r.node.metadata@.len() == 0,
            r.resource_names == resource_names,
            r.version_info matches Some(v) && v@ == seq!['0'],
    {
        proof {
            reveal_strlit("0");
        }
        DiscoveryRequest {
            node: Node {
                id: None,
                cluster,
                metadata: Vec::new(),
                build_version: Some(version),
                locality: None,
                user_agent_build_version: None,
            },
            version_info: Some(String::from_str("0")),
            resource_names,
        }
    }

    /// The Envoy version of the request; `build_version` takes precedence
    /// over `user_agent_build_version`.
    pub fn envoy_version(&self) -> (r: Option<String>)
        ensures
            match r {
                Some(v) => self.requested_version() == Some(v@),
                None => self.requested_version() is None,
            },
    {
        match &self.node.build_version {
            Some(v) => Some(v.clone()),
            None => match &self.node.user_agent_build_version {
                Some(b) => Some(b.version.text()),
                None => None,
            },
        }
    }

    /// The cluster of the requesting node.
    pub fn cluster(&self) -> (r: &str)
        ensures
            r@ == self.node.cluster@,
    {
        self.node.cluster.as_str()
    }

    /// The resource names asked for; none when the request lists none.
    pub fn resource_names(&self) -> (r: Vec<String>)
        ensures
            match self.resource_names {
                Some(names) => r@.len() == names@.len() && forall|i: int|
                    0 <= i < r@.len() ==> #[trigger] r@[i]@ == names@[i]@,
                None => r@.len() == 0,
            },
    {
        match &self.resource_names {
            Some(names) => {
                let mut out: Vec<String> = Vec::new();
                let mut i: usize = 0;
                while i < names.len()
                    invariant
                        0 <= i <= names@.len(),
                        out@.len() == i,
                        forall|m: int| 0 <= m < i ==> #[trigger] out@[m]@ == names@[m]@,
                    decreases names@.len() - i,
                {
                    out.push(names[i].clone());
                    i = i + 1;
                }
                out
            },
            None => Vec::new(),
        }
    }
}

/// The content hash of a text: xxHash64 of its UTF-8 bytes with seed 0.
pub uninterp spec fn xxh64_of(text: Seq<char>) -> u64;

/// Relies on `xxhash_rust::xxh64::xxh64`: the 64-bit xxHash of the bytes
/// with seed 0, which depends on the bytes alone.
#[verifier::external_body]
pub(crate) fn text_hash(text: &str) -> (r: u64)
    ensures
        r == xxh64_of(text@),
{
    xxhash_rust::xxh64::xxh64(text.as_bytes(), 0)
}

/// The version identifier of a rendered text: its content hash in decimal.
pub open spec fn version_of(text: Seq<char>) -> Seq<char> {
    decimal(xxh64_of(text) as nat)
}

/// The version identifier of `text`.
pub fn version_info_of(text: &str) -> (r: String)
    ensures
        r@ == version_of(text@),
{
    decimal_string(text_hash(text))
}

/// A discovery response: resources with their content-derived version.
pub struct DiscoveryResponse {
    pub resources: String,
    pub version_info: String,
}

impl DiscoveryResponse {
    /// Versions `resources` by the hash of its text.
    pub fn new(resources: String) -> (r: Self)
        ensures
            r.resources == resources,
            r.version_info@ == version_of(resources@),
    {
        let version_info = version_info_of(resources.as_str());
        DiscoveryResponse { resources, version_info }
    }
}

} // verus!
