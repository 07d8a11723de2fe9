//! Templates, their registry, and the resolution of a request to a template
//! by the longest matching version prefix.
use vstd::prelude::*;

use crate::context::DeserializeAs;
use dashmap::DashMap;

verus! {

/// A configuration template for one Envoy version prefix and resource type.
/// Its source is the file at `path`.
pub struct XdsTemplate {
    pub path: String,
    pub envoy_version: String,
    pub resource_type: String,
    pub deserialize_as: DeserializeAs,
    pub call_python: Option<bool>,
}

impl Clone for XdsTemplate {
    fn clone(&self) -> (r: Self)
        ensures
            r == *self,
    {
        XdsTemplate {
            path: self.path.clone(),
            envoy_version: self.envoy_version.clone(),
            resource_type: self.resource_type.clone(),
            deserialize_as: self.deserialize_as,
            call_python: self.call_python,
        }
    }
}

/// The name under which a template for `version` and `resource_type` is
/// registered: `version/resource_type`.
pub open spec fn template_name(version: Seq<char>, resource_type: Seq<char>) -> Seq<char> {
    version + seq!['/'] + resource_type
}

/// The name of the fallback template for `resource_type`.
pub open spec fn default_name(resource_type: Seq<char>) -> Seq<char> {
    template_name(seq!['d', 'e', 'f', 'a', 'u', 'l', 't'], resource_type)
}

impl XdsTemplate {
    pub open spec fn spec_name(&self) -> Seq<char> {
        template_name(self.envoy_version@, self.resource_type@)
    }

    /// The registry name of this template.
    pub fn name(&self) -> (r: String)
        ensures
            r@ == self.spec_name(),
    {
        let mut r = self.envoy_version.clone();
        proof {
            reveal_strlit("/");
        }
        r.append("/");
        r.append(self.resource_type.as_str());
        r
    }
}

#[verifier::external_type_specification]
#[verifier::external_body]
#[verifier::reject_recursive_types(K)]
#[verifier::reject_recursive_types(V)]
#[verifier::reject_recursive_types(S)]
pub struct ExDashMap<K, V, S>(DashMap<K, V, S>);

/// What a template registry holds: template name to template.
pub uninterp spec fn registry_contents(m: DashMap<String, XdsTemplate>) -> Map<
    Seq<char>,
    XdsTemplate,
>;

/// Relies on `DashMap::new`: the new map is empty.
#[verifier::external_body]
fn registry_new() -> (m: DashMap<String, XdsTemplate>)
    ensures
        registry_contents(m) =~= Map::empty(),
{
    DashMap::new()
}

/// Relies on `DashMap::insert`: afterwards `name` maps to `t`, replacing
/// what it mapped to before, and no other entry changes.
#[verifier::external_body]
fn registry_insert(m: &mut DashMap<String, XdsTemplate>, name: String, t: XdsTemplate)
    ensures
        registry_contents(*final(m)) == registry_contents(*old(m)).insert(name@, t),
{
    m.insert(name, t);
}

/// Relies on `DashMap::get`: the entry under `name`, if there is one.
#[verifier::external_body]
fn registry_get(m: &DashMap<String, XdsTemplate>, name: &String) -> (r: Option<XdsTemplate>)
    ensures
        registry_contents(*m).contains_key(name@) ==> r == Some(registry_contents(*m)[name@]),
        !registry_contents(*m).contains_key(name@) ==> r is None,
{
    m.get(name).map(|entry| entry.value().clone())
}

/// Relies on `DashMap::iter`: it visits every entry once, in an order that
/// the map does not promise.
#[verifier::external_body]
fn registry_names(m: &DashMap<String, XdsTemplate>) -> (r: Vec<String>)
    ensures
        forall|i: int| 0 <= i < r@.len() ==> registry_contents(*m).contains_key(#[trigger] r@[i]@),
        forall|n: Seq<char>|
            #[trigger] registry_contents(*m).contains_key(n) ==> exists|i: int|
                0 <= i < r@.len() && r@[i]@ == n,
{
    m.iter().map(|entry| entry.key().clone()).collect()
}

/// `p` is `v` itself, or the part of `v` before one of its dots.
pub open spec fn is_dot_prefix(p: Seq<char>, v: Seq<char>) -> bool {
    p == v || (p.len() < v.len() && v[p.len() as int] == '.' && p == v.take(p.len() as int))
}

/// The template of the longest dot-prefix of `v` no longer than `n` whose
/// name `prefix/resource_type` is registered.
pub open spec fn prefix_hit(
    reg: Map<Seq<char>, XdsTemplate>,
    v: Seq<char>,
    resource_type: Seq<char>,
    n: nat,
) -> Option<XdsTemplate>
    decreases n,
{
    let p = v.take(n as int);
    if n <= v.len() && is_dot_prefix(p, v) && reg.contains_key(template_name(p, resource_type)) {
        Some(reg[template_name(p, resource_type)])
    } else if n == 0 {
        None
    } else {
        prefix_hit(reg, v, resource_type, (n - 1) as nat)
    }
}

/// The template a request for Envoy version `v` and `resource_type`
/// resolves to: the longest registered version prefix, else the default.
pub open spec fn resolve(
    reg: Map<Seq<char>, XdsTemplate>,
    v: Seq<char>,
    resource_type: Seq<char>,
) -> Option<XdsTemplate> {
    match prefix_hit(reg, v, resource_type, v.len()) {
        Some(t) => Some(t),
        None => if reg.contains_key(default_name(resource_type)) {
            Some(reg[default_name(resource_type)])
        } else {
            None
        },
    }
}

/// `names` lists exactly the names registered in `reg`.
pub open spec fn lists_names(names: Seq<String>, reg: Map<Seq<char>, XdsTemplate>) -> bool {
    &&& forall|i: int| 0 <= i < names.len() ==> reg.contains_key(#[trigger] names[i]@)
    &&& forall|n: Seq<char>|
        #[trigger] reg.contains_key(n) ==> exists|i: int| 0 <= i < names.len() && names[i]@ == n
}

/// The template registry shared by all request handlers.
pub struct State {
    pub templates: DashMap<String, XdsTemplate>,
}

/// The registry that `templates` yields when registered in order: each
/// name maps to the last template of that name.
pub open spec fn registered(templates: Seq<XdsTemplate>) -> Map<Seq<char>, XdsTemplate>
    decreases templates.len(),
{
    if templates.len() == 0 {
        Map::empty()
    } else {
        registered(templates.drop_last()).insert(
            templates.last().spec_name(),
            templates.last(),
        )
    }
}

impl State {
    pub open spec fn contents(&self) -> Map<Seq<char>, XdsTemplate> {
        registry_contents(self.templates)
    }

    /// Registers `templates` in order; a later template replaces an
    /// earlier one of the same name.
    pub fn new(templates: &Vec<XdsTemplate>) -> (r: State)
        ensures
            r.contents() == registered(templates@),
    {
        let mut m = registry_new();
        let mut i: usize = 0;
        while i < templates.len()
            invariant
                0 <= i <= templates@.len(),
                registry_contents(m) == registered(templates@.take(i as int)),
            decreases templates@.len() - i,
        {
            assert(templates@.take(i + 1).drop_last() =~= templates@.take(i as int));
            let t = templates[i].clone();
            let name = t.name();
            registry_insert(&mut m, name, t);
            i = i + 1;
        }
        assert(templates@.take(i as int) =~= templates@);
        State { templates: m }
    }

    /// The names of all registered templates, in no promised order.
    pub fn names(&self) -> (r: Vec<String>)
        ensures
            lists_names(r@, self.contents()),
    {
        registry_names(&self.templates)
    }

    /// Resolves a request for `envoy_version` and `resource_type` to a
    /// template: the registered name `prefix/resource_type` with the
    /// longest dot-prefix of the version, else `default/resource_type`.
    pub fn template(&self, envoy_version: &str, resource_type: &str) -> (r: Option<XdsTemplate>)
        ensures
            r == resolve(self.contents(), envoy_version@, resource_type@),
    {
        let ghost reg = self.contents();
        let ghost v = envoy_version@;
        let len = envoy_version.unicode_len();
        let mut n: usize = len;
        loop
            invariant
                0 <= n <= len,
                len == v.len(),
                reg == self.contents(),
                v == envoy_version@,
                prefix_hit(reg, v, resource_type@, v.len()) == prefix_hit(
                    reg,
                    v,
                    resource_type@,
                    n as nat,
                ),
            ensures
                prefix_hit(reg, v, resource_type@, v.len()) is None,
            decreases n,
        {
            let boundary = n == len || envoy_version.get_char(n) == '.';
            if boundary {
                let prefix = envoy_version.substring_char(0, n);
                let mut name = String::from_str(prefix);
                proof {
                    reveal_strlit("/");
                }
                name.append("/");
                name.append(resource_type);
                proof {
                    assert(prefix@ =~= v.take(n as int));
                    if n == len {
                        assert(v.take(n as int) =~= v);
                    }
                    assert(is_dot_prefix(v.take(n as int), v));
                    assert(name@ =~= template_name(v.take(n as int), resource_type@));
                }
                match registry_get(&self.templates, &name) {
                    Some(t) => {
                        return Some(t);
                    },
                    None => {},
                }
            }
            proof {
                if !boundary {
                    assert(v.take(n as int).len() == n);
                    assert(!is_dot_prefix(v.take(n as int), v));
                }
            }
            if n == 0 {
                break ;
            }
            n = n - 1;
        }
        proof {
            reveal_strlit("default/");
        }
        let mut name = String::from_str("default/");
        name.append(resource_type);
        assert(name@ =~= default_name(resource_type@));
        registry_get(&self.templates, &name)
    }
}

proof fn lemma_dot_prefix_is_take(q: Seq<char>, v: Seq<char>)
    requires
        is_dot_prefix(q, v),
    ensures
        q == v.take(q.len() as int),
        q.len() <= v.len(),
{
    if q == v {
        assert(v.take(v.len() as int) =~= v);
    }
}

proof fn lemma_prefix_hit(
    reg: Map<Seq<char>, XdsTemplate>,
    v: Seq<char>,
    rt: Seq<char>,
    n: nat,
)
    requires
        n <= v.len(),
    ensures
        match prefix_hit(reg, v, rt, n) {
            Some(t) => exists|p: Seq<char>|
                #[trigger] is_dot_prefix(p, v) && p.len() <= n && reg.contains_key(
                    template_name(p, rt),
                ) && t == reg[template_name(p, rt)] && forall|q: Seq<char>|
                    #[trigger] is_dot_prefix(q, v) && p.len() < q.len() <= n ==> !reg.contains_key(
                        template_name(q, rt),
                    ),
            None => forall|q: Seq<char>|
                #[trigger] is_dot_prefix(q, v) && q.len() <= n ==> !reg.contains_key(
                    template_name(q, rt),
                ),
        },
    decreases n,
{
    let p = v.take(n as int);
    assert forall|q: Seq<char>| #[trigger] is_dot_prefix(q, v) && q.len() == n implies q == p by {
        lemma_dot_prefix_is_take(q, v);
    }
    if is_dot_prefix(p, v) && reg.contains_key(template_name(p, rt)) {
        assert(is_dot_prefix(p, v) && p.len() <= n);
    } else if n > 0 {
        lemma_prefix_hit(reg, v, rt, (n - 1) as nat);
    }
}

/// Longest prefix wins: a request for Envoy version `v` and
/// `resource_type` resolves to the registered template `p/resource_type`
/// whose `p` is the longest dot-prefix of `v` (the whole version counts),
/// else to `default/resource_type` if registered, else to nothing.
pub proof fn lemma_longest_prefix(
    reg: Map<Seq<char>, XdsTemplate>,
    v: Seq<char>,
    resource_type: Seq<char>,
)
    ensures
        match resolve(reg, v, resource_type) {
            Some(t) => {
                ||| exists|p: Seq<char>|
                    #[trigger] is_dot_prefix(p, v) && reg.contains_key(
                        template_name(p, resource_type),
                    ) && t == reg[template_name(p, resource_type)] && forall|q: Seq<char>|
                        #[trigger] is_dot_prefix(q, v) && q.len() > p.len() ==> !reg.contains_key(
                            template_name(q, resource_type),
                        )
                ||| (forall|q: Seq<char>|
                    #[trigger] is_dot_prefix(q, v) ==> !reg.contains_key(
                        template_name(q, resource_type),
                    )) && reg.contains_key(default_name(resource_type)) && t == reg[default_name(
                    resource_type,
                )]
            },
            None => (forall|q: Seq<char>|
                #[trigger] is_dot_prefix(q, v) ==> !reg.contains_key(
                    template_name(q, resource_type),
                )) && !reg.contains_key(default_name(resource_type)),
        },
{
    lemma_prefix_hit(reg, v, resource_type, v.len());
    assert forall|q: Seq<char>| #[trigger] is_dot_prefix(q, v) implies q.len() <= v.len() by {
        lemma_dot_prefix_is_take(q, v);
    }
}

} // verus!
