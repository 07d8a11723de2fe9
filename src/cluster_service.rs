//! The data of the gRPC cluster-discovery service: the clusters it serves.
use vstd::prelude::*;

use crate::sources::string_views;

verus! {

/// A cluster to announce, by name.
pub struct Instance {
    pub name: String,
}

/// The clusters a cluster-discovery service announces; `None` entries are
/// skipped.
pub struct DiscoveryServer {
    pub sources: Vec<Option<Instance>>,
}

/// The names of the present entries, in order.
pub open spec fn announced(sources: Seq<Option<Instance>>) -> Seq<Seq<char>>
    decreases sources.len(),
{
    if sources.len() == 0 {
        Seq::empty()
    } else {
        announced(sources.drop_last()) + match sources.last() {
            Some(inst) => seq![inst.name@],
            None => Seq::empty(),
        }
    }
}

impl DiscoveryServer {
    /// The names of the clusters announced, in order.
    pub fn cluster_names(&self) -> (r: Vec<String>)
        ensures
            string_views(r@) == announced(self.sources@),
    {
        let ghost s = self.sources@;
        let mut out: Vec<String> = Vec::new();
        let mut i: usize = 0;
        assert(string_views(out@) =~= announced(s.take(0)));
        while i < self.sources.len()
            invariant
                0 <= i <= s.len(),
                s == self.sources@,
                string_views(out@) == announced(s.take(i as int)),
            decreases s.len() - i,
        {
            assert(s.take(i + 1).drop_last() =~= s.take(i as int));
            let ghost before = out@;
            match &self.sources[i] {
                Some(inst) => {
                    out.push(inst.name.clone());
                    assert(string_views(out@) =~= string_views(before) + seq![inst.name@]);
                },
                None => {},
            }
            assert(string_views(out@) =~= announced(s.take(i + 1)));
            i = i + 1;
        }
        assert(s.take(i as int) =~= s);
        out
    }
}

} // verus!
