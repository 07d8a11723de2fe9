//! Answering a discovery request: select a template and the instances for
//! the node, then turn the rendered text into a reply.
use vstd::prelude::*;

use crate::context::DeserializeAs;
use crate::envoy_types::{text_hash, version_of, xxh64_of, DiscoveryRequest};
use crate::json::{copy_json, views, Json, JsonView};
use crate::sources::{package_views, string_views, InstancesPackage, PackageView, SourceDest};
use crate::templates::{lists_names, resolve, State, XdsTemplate};
use crate::text::{decimal, decimal_string};

verus! {

/// The instances that a node of `cluster` sees: those of every package for
/// all nodes or for exactly `cluster`, in package order.
pub open spec fn filtered(pkgs: Seq<PackageView>, cluster: Seq<char>) -> Seq<JsonView>
    decreases pkgs.len(),
{
    if pkgs.len() == 0 {
        Seq::empty()
    } else {
        filtered(pkgs.drop_last(), cluster) + if pkgs.last().dest is None || pkgs.last().dest
            == Some(cluster) {
            pkgs.last().instances
        } else {
            Seq::empty()
        }
    }
}

/// Gathers the instances of `snapshot` that a node of `cluster` sees.
pub fn filter_instances(snapshot: &Vec<InstancesPackage>, cluster: &str) -> (r: Vec<Json>)
    ensures
        views(r@) == filtered(package_views(snapshot@), cluster@),
{
    let ghost pv = package_views(snapshot@);
    let wanted = String::from_str(cluster);
    let mut out: Vec<Json> = Vec::new();
    let mut i: usize = 0;
    assert(pv.take(0) =~= Seq::<PackageView>::empty());
    while i < snapshot.len()
        invariant
            0 <= i <= snapshot@.len(),
            pv == package_views(snapshot@),
            wanted@ == cluster@,
            views(out@) == filtered(pv.take(i as int), cluster@),
        decreases snapshot@.len() - i,
    {
        assert(pv.take(i + 1).drop_last() =~= pv.take(i as int));
        assert(pv.take(i + 1).last() == snapshot@[i as int]@);
        let pkg = &snapshot[i];
        let keep = match &pkg.dest {
            SourceDest::Any => true,
            SourceDest::Match(k) => *k == wanted,
        };
        if keep {
            let ghost start = views(out@);
            let mut m: usize = 0;
            assert(views(pkg.instances@).take(0) =~= Seq::<JsonView>::empty());
            while m < pkg.instances.len()
                invariant
                    0 <= m <= pkg.instances@.len(),
                    views(out@) == start + views(pkg.instances@).take(m as int),
                decreases pkg.instances@.len() - m,
            {
                let e = copy_json(&pkg.instances[m]);
                let ghost before = out@;
                out.push(e);
                assert(views(out@) =~= views(before).push(e@));
                assert(views(pkg.instances@).take(m + 1) =~= views(pkg.instances@).take(
                    m as int,
                ).push(pkg.instances@[m as int]@));
                m = m + 1;
            }
            assert(views(pkg.instances@).take(m as int) =~= views(pkg.instances@));
        }
        assert(views(out@) =~= filtered(pv.take(i + 1), cluster@));
        i = i + 1;
    }
    assert(pv.take(i as int) =~= pv);
    out
}

/// The part of `s` after its first colon.
pub open spec fn after_colon(s: Seq<char>) -> Option<Seq<char>>
    decreases s.len(),
{
    if s.len() == 0 {
        None
    } else if s[0] == ':' {
        Some(s.drop_first())
    } else {
        after_colon(s.drop_first())
    }
}

/// The resource type of a route suffix `discovery:{resource_type}`.
pub fn resource_type_of(resource: &str) -> (r: Option<String>)
    ensures
        match r {
            Some(t) => after_colon(resource@) == Some(t@),
            None => after_colon(resource@) is None,
        },
{
    let ghost s = resource@;
    let len = resource.unicode_len();
    let mut i: usize = 0;
    assert(s.skip(0) =~= s);
    while i < len
        invariant
            0 <= i <= len,
            len == s.len(),
            s == resource@,
            after_colon(s) == after_colon(s.skip(i as int)),
        decreases len - i,
    {
        assert(s.skip(i as int).drop_first() =~= s.skip(i + 1));
        if resource.get_char(i) == ':' {
            let rest = resource.substring_char(i + 1, len);
            assert(rest@ =~= s.skip(i + 1));
            return Some(String::from_str(rest));
        }
        i = i + 1;
    }
    None
}

/// The outcome of a discovery request.
pub enum Reply {
    /// The client already has this version: 304 with an empty body.
    NotModified,
    /// 200 with a JSON body.
    Resources { body: String },
    /// The request cannot be served as it stands: 400.
    BadRequest { message: String },
    /// The path is not a discovery route: 404.
    UnknownRoute,
    /// No template for the request: 404, listing the registered names.
    NotFound { resource_type: String, version: String, known: Vec<String> },
    /// Rendering or re-encoding failed: 500.
    ServerError { message: String },
}

impl Reply {
    /// The HTTP status of this reply.
    pub fn status(&self) -> (r: u16)
        ensures
            r == match self {
                Reply::NotModified => 304u16,
                Reply::Resources { .. } => 200u16,
                Reply::BadRequest { .. } => 400u16,
                Reply::UnknownRoute => 404u16,
                Reply::NotFound { .. } => 404u16,
                Reply::ServerError { .. } => 500u16,
            },
    {
        match self {
            Reply::NotModified => 304,
            Reply::Resources { .. } => 200,
            Reply::BadRequest { .. } => 400,
            Reply::UnknownRoute => 404,
            Reply::NotFound { .. } => 404,
            Reply::ServerError { .. } => 500,
        }
    }
}

/// What a request is answered from once a template is chosen.
pub struct Selected {
    pub template: XdsTemplate,
    pub instances: Vec<Json>,
}

/// Selects the template and the instances for a request on route suffix
/// `resource`, against the current `snapshot`.
pub fn select(
    state: &State,
    resource: &str,
    request: &DiscoveryRequest,
    snapshot: &Vec<InstancesPackage>,
) -> (r: Result<Selected, Reply>)
    ensures
        after_colon(resource@) is None ==> r matches Err(Reply::UnknownRoute),
        after_colon(resource@) is Some && request.requested_version() is None ==> (r matches Err(
            Reply::BadRequest { message },
        ) && message@ == "No envoy version"@),
        after_colon(resource@) is Some && request.requested_version() is Some ==> match resolve(
            state.contents(),
            request.requested_version()->0,
            after_colon(resource@)->0,
        ) {
            None => (r matches Err(Reply::NotFound { resource_type, version, known }) && {
                &&& Some(resource_type@) == after_colon(resource@)
                &&& Some(version@) == request.requested_version()
                &&& lists_names(known@, state.contents())
            }),
            Some(t) => (r matches Ok(sel) && sel.template == t && views(sel.instances@)
                == filtered(package_views(snapshot@), request.node.cluster@)),
        },
{
    let resource_type = match resource_type_of(resource) {
        None => {
            return Err(Reply::UnknownRoute);
        },
        Some(t) => t,
    };
    let version = match request.envoy_version() {
        None => {
            return Err(Reply::BadRequest { message: String::from_str("No envoy version") });
        },
        Some(v) => v,
    };
    match state.template(version.as_str(), resource_type.as_str()) {
        None => {
            let known = state.names();
            Err(Reply::NotFound { resource_type, version, known })
        },
        Some(template) => {
            let instances = filter_instances(snapshot, request.cluster());
            Ok(Selected { template, instances })
        },
    }
}

/// The JSON re-encoding of a YAML document; where the text is not YAML,
/// the line and column (from 1) at which parsing failed, if known.
pub uninterp spec fn yaml_as_json(text: Seq<char>) -> Result<Seq<char>, Option<(usize, usize)>>;

/// Relies on `serde_yaml::from_str` into a `serde_json::Value`, on
/// `serde_yaml::Error::location` for where parsing failed, and on
/// `serde_json::to_string` of the value: the result depends on the text
/// alone.
#[verifier::external_body]
fn yaml_to_json(text: &str) -> (r: Result<String, Option<(usize, usize)>>)
    ensures
        match r {
            Ok(j) => yaml_as_json(text@) == Ok::<Seq<char>, Option<(usize, usize)>>(j@),
            Err(at) => yaml_as_json(text@) == Err::<Seq<char>, Option<(usize, usize)>>(at),
        },
{
    match serde_yaml::from_str::<serde_json::Value>(text) {
        Ok(v) => serde_json::to_string(&v).map_err(|_| None),
        Err(e) => Err(e.location().map(|l| (l.line(), l.column()))),
    }
}

/// The response body: `{"version_info": "<version>", "resources": <resources>}`.
pub open spec fn envelope(version: Seq<char>, resources: Seq<char>) -> Seq<char> {
    "{\"version_info\": \""@ + version + "\", \"resources\": "@ + resources + "}"@
}

/// The reply's value: `None` for not modified, else the body of a 200
/// (`Ok`) or the message of a 500 (`Err`).
pub open spec fn expected_reply(
    text: Seq<char>,
    hash: u64,
    deserialize_as: DeserializeAs,
    client_version: Option<Seq<char>>,
) -> Option<Result<Seq<char>, Seq<char>>> {
    let version = decimal(hash as nat);
    if client_version == Some(version) {
        None
    } else {
        match deserialize_as {
            DeserializeAs::Yaml => match yaml_as_json(text) {
                Ok(j) => Some(Ok(envelope(version, j))),
                Err(_) => Some(Err("rendered template is not valid YAML"@)),
            },
            _ => Some(Ok(envelope(version, text))),
        }
    }
}

/// Whether reply `r` has the value `e` of [`expected_reply`].
pub open spec fn reply_is(r: Reply, e: Option<Result<Seq<char>, Seq<char>>>) -> bool {
    match e {
        None => r is NotModified,
        Some(Ok(body)) => (r matches Reply::Resources { body: b } && b@ == body),
        Some(Err(message)) => (r matches Reply::ServerError { message: m } && m@ == message),
    }
}

pub open spec fn opt_view(o: Option<String>) -> Option<Seq<char>> {
    match o {
        Some(s) => Some(s@),
        None => None,
    }
}

fn envelope_string(version: &str, resources: &str) -> (r: String)
    ensures
        r@ == envelope(version@, resources@),
{
    let mut r = String::from_str("{\"version_info\": \"");
    r.append(version);
    r.append("\", \"resources\": ");
    r.append(resources);
    r.append("}");
    r
}

/// Answers from rendered `text` whose content hash is `hash`: not modified
/// when the client's version is the hash in decimal, else the envelope of
/// the text, re-encoded from YAML to JSON where the template asks for it.
pub fn conditional_reply(
    text: &str,
    hash: u64,
    deserialize_as: DeserializeAs,
    client_version: &Option<String>,
) -> (r: Reply)
    ensures
        reply_is(r, expected_reply(text@, hash, deserialize_as, opt_view(*client_version))),
{
    let version = decimal_string(hash);
    let unchanged = match client_version {
        Some(c) => *c == version,
        None => false,
    };
    if unchanged {
        return Reply::NotModified;
    }
    match deserialize_as {
        DeserializeAs::Yaml => match yaml_to_json(text) {
            Ok(j) => Reply::Resources { body: envelope_string(version.as_str(), j.as_str()) },
            Err(_) => Reply::ServerError {
                message: String::from_str("rendered template is not valid YAML"),
            },
        },
        _ => Reply::Resources { body: envelope_string(version.as_str(), text) },
    }
}

/// Answers from the outcome of rendering: a render error is a 500 with its
/// text; rendered text is answered by [`conditional_reply`] with its
/// content hash.
pub fn reply(
    rendered: Result<String, String>,
    deserialize_as: DeserializeAs,
    client_version: &Option<String>,
) -> (r: Reply)
    ensures
        match rendered {
            Err(e) => (r matches Reply::ServerError { message } && message@ == e@),
            Ok(text) => reply_is(
                r,
                expected_reply(
                    text@,
                    xxh64_of(text@),
                    deserialize_as,
                    opt_view(*client_version),
                ),
            ),
        },
{
    match rendered {
        Err(e) => Reply::ServerError { message: e },
        Ok(text) => {
            let hash = text_hash(text.as_str());
            conditional_reply(text.as_str(), hash, deserialize_as, client_version)
        },
    }
}

/// Conditional responses: the version that a rendered text is answered
/// with depends on the text alone, and a client that sends that version
/// back for the same text is answered "not modified", with no body.
pub proof fn lemma_conditional_response(
    text: Seq<char>,
    other: Seq<char>,
    deserialize_as: DeserializeAs,
    client_version: Option<Seq<char>>,
)
    ensures
        text == other ==> version_of(text) == version_of(other),
        expected_reply(text, xxh64_of(text), deserialize_as, Some(version_of(text))) is None,
        client_version != Some(version_of(text)) ==> expected_reply(
            text,
            xxh64_of(text),
            deserialize_as,
            client_version,
        ) is Some,
{
}

/// `lines` are the pieces of `text` between its line feeds.
pub open spec fn is_split(lines: Seq<Seq<char>>, text: Seq<char>) -> bool {
    &&& lines.len() > 0
    &&& joined(lines) == text
    &&& forall|k: int| 0 <= k < lines.len() ==> !(#[trigger] lines[k]).contains('\n')
}

/// The lines joined with line feeds.
pub open spec fn joined(lines: Seq<Seq<char>>) -> Seq<char>
    decreases lines.len(),
{
    if lines.len() <= 1 {
        if lines.len() == 0 {
            Seq::empty()
        } else {
            lines[0]
        }
    } else {
        joined(lines.drop_last()) + seq!['\n'] + lines.last()
    }
}

/// Relies on `str::split` with a line feed: the pieces between line feeds,
/// in order, none of them holding one.
#[verifier::external_body]
fn split_lines(text: &str) -> (r: Vec<String>)
    ensures
        is_split(string_views(r@), text@),
{
    text.split('\n').map(|line| line.to_string()).collect()
}

/// The excerpt lines that line `idx` (from 1) with text `text` contributes
/// to the window around `line` and `column`: the numbered line when it lies
/// within five lines of `line`, followed by a caret under `column` for the
/// line itself.
pub open spec fn excerpt_entry(idx: nat, text: Seq<char>, line: nat, column: nat) -> Seq<
    Seq<char>,
> {
    let start: nat = if line >= 5 {
        (line - 5) as nat
    } else {
        1
    };
    if start <= idx && idx <= line + 5 {
        seq![decimal(idx) + seq![':', ' '] + text] + if idx == line {
            seq![Seq::new(column + 3, |i: int| ' ').push('^')]
        } else {
            Seq::empty()
        }
    } else {
        Seq::empty()
    }
}

/// The window of `lines` (numbered from 1) around `line` and `column`.
pub open spec fn excerpt(lines: Seq<Seq<char>>, line: nat, column: nat) -> Seq<Seq<char>>
    decreases lines.len(),
{
    if lines.len() == 0 {
        Seq::empty()
    } else {
        excerpt(lines.drop_last(), line, column) + excerpt_entry(
            lines.len(),
            lines.last(),
            line,
            column,
        )
    }
}

fn caret_line(column: usize) -> (r: String)
    requires
        column + 3 <= u64::MAX,
    ensures
        r@ == Seq::new((column + 3) as nat, |i: int| ' ').push('^'),
{
    let mut r = String::new();
    let mut i: u64 = 0;
    let total: u64 = column as u64 + 3;
    while i < total
        invariant
            total == column + 3,
            i <= total,
            r@ == Seq::new(i as nat, |k: int| ' '),
        decreases total - i,
    {
        proof {
            reveal_strlit(" ");
        }
        r.append(" ");
        assert(r@ =~= Seq::new((i + 1) as nat, |k: int| ' '));
        i = i + 1;
    }
    proof {
        reveal_strlit("^");
    }
    r.append("^");
    assert(r@ =~= Seq::new((column + 3) as nat, |k: int| ' ').push('^'));
    r
}

/// The excerpt of `lines` around `line` and `column` (both from 1): each
/// line within five lines of `line`, prefixed by its number, and a caret
/// under the column of `line`.
pub fn excerpt_lines(lines: &Vec<String>, line: usize, column: usize) -> (r: Vec<String>)
    requires
        column + 3 <= u64::MAX,
    ensures
        string_views(r@) == excerpt(string_views(lines@), line as nat, column as nat),
{
    let ghost lv = string_views(lines@);
    let mut out: Vec<String> = Vec::new();
    let mut i: usize = 0;
    assert(lv.take(0) =~= Seq::<Seq<char>>::empty());
    assert(string_views(out@) =~= Seq::<Seq<char>>::empty());
    while i < lines.len()
        invariant
            0 <= i <= lines@.len(),
            lv == string_views(lines@),
            column + 3 <= u64::MAX,
            string_views(out@) == excerpt(lv.take(i as int), line as nat, column as nat),
        decreases lines@.len() - i,
    {
        assert(lv.take(i + 1).drop_last() =~= lv.take(i as int));
        assert(lv.take(i + 1).last() == lines@[i as int]@);
        let idx: usize = i + 1;
        let start: usize = if line >= 5 {
            line - 5
        } else {
            1
        };
        let ghost before = string_views(out@);
        if start <= idx && (idx <= line || idx - line <= 5) {
            let mut numbered = decimal_string(idx as u64);
            proof {
                reveal_strlit(": ");
            }
            numbered.append(": ");
            numbered.append(lines[i].as_str());
            assert(numbered@ == decimal(idx as nat) + seq![':', ' '] + lines@[i as int]@);
            out.push(numbered);
            assert(string_views(out@) =~= before.push(numbered@));
            if idx == line {
                let caret = caret_line(column);
                out.push(caret);
                assert(string_views(out@) =~= before.push(numbered@).push(caret@));
            }
        }
        assert(string_views(out@) =~= before + excerpt_entry(
            idx as nat,
            lines@[i as int]@,
            line as nat,
            column as nat,
        ));
        i = i + 1;
    }
    assert(lv.take(i as int) =~= lv);
    out
}

/// The diagnostic excerpt for rendered `text` that does not parse as YAML:
/// the lines around where parsing failed; none where the text parses or the
/// place is unknown.
pub fn yaml_error_excerpt(text: &str) -> (r: Vec<String>)
    ensures
        match yaml_as_json(text@) {
            Err(Some((line, column))) => column + 3 <= u64::MAX ==> exists|lines: Seq<Seq<char>>|
                is_split(lines, text@) && string_views(r@) == excerpt(
                    lines,
                    line as nat,
                    column as nat,
                ),
            _ => r@.len() == 0,
        },
{
    match yaml_to_json(text) {
        Err(Some((line, column))) => {
            if column as u64 > u64::MAX - 3 {
                return Vec::new();
            }
            let lines = split_lines(text);
            excerpt_lines(&lines, line, column)
        },
        _ => Vec::new(),
    }
}

} // verus!
