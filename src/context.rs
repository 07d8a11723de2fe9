//! Auxiliary named data handed to every template.
use vstd::prelude::*;

use crate::json::Json;

verus! {

/// How fetched bytes are decoded.
#[derive(PartialEq, Eq, Structural, Clone, Copy, Debug)]
pub enum DeserializeAs {
    Json,
    Yaml,
    Plaintext,
}

impl Default for DeserializeAs {
    fn default() -> (r: Self)
        ensures
            r == DeserializeAs::Json,
    {
        DeserializeAs::Json
    }
}

/// A loaded context value: text that templates treat as already escaped,
/// or a structured document.
pub enum Parsed {
    Text(String),
    Structured(Json),
}

/// Where a context entry is read from. Header pairs are sent with the request.
pub enum DataSource {
    File { path: String },
    Http { url: String, headers: Option<Vec<(String, String)>> },
    S3 { bucket: String, key: String, region: String },
}

/// One configured context entry.
pub struct TemplateContext {
    pub deserialize_as: DeserializeAs,
    pub data_source: DataSource,
}

/// Every entry of a context refresh loaded.
pub open spec fn all_loaded(loaded: Seq<(String, Option<Parsed>)>) -> bool {
    forall|i: int| 0 <= i < loaded.len() ==> (#[trigger] loaded[i]).1 is Some
}

/// One context refresh: the named values, in configured order, when every
/// entry loaded; none when an entry failed, so that the current context
/// stays in place whole.
pub fn context_snapshot(loaded: Vec<(String, Option<Parsed>)>) -> (r: Option<
    Vec<(String, Parsed)>,
>)
    ensures
        all_loaded(loaded@) <==> r is Some,
        r matches Some(v) ==> v@.len() == loaded@.len() && forall|i: int|
            0 <= i < v@.len() ==> (#[trigger] v@[i]).0 == loaded@[i].0 && Some(v@[i].1)
                == loaded@[i].1,
{
    let ghost orig = loaded@;
    let n = loaded.len();
    let mut rest = loaded;
    let mut out: Vec<(String, Parsed)> = Vec::new();
    let mut i: usize = 0;
    while rest.len() > 0
        invariant
            i + rest@.len() == orig.len(),
            orig.len() == n,
            orig == loaded@,
            rest@ == orig.skip(i as int),
            out@.len() == i,
            forall|m: int| 0 <= m < i ==> (#[trigger] orig[m]).1 is Some,
            forall|m: int|
                0 <= m < i ==> (#[trigger] out@[m]).0 == orig[m].0 && Some(out@[m].1)
                    == orig[m].1,
        decreases rest@.len(),
    {
        let (name, value) = rest.remove(0);
        assert(orig[i as int] == (name, value));
        match value {
            Some(v) => {
                out.push((name, v));
            },
            None => {
                assert(!(orig[i as int].1 is Some));
                return None;
            },
        }
        assert(rest@ =~= orig.skip(i + 1));
        i = i + 1;
    }
    Some(out)
}

} // verus!
