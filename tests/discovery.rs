use sovereign::cluster_service::{DiscoveryServer, Instance};
use sovereign::config::NodeMatching;
use sovereign::context::{context_snapshot, DeserializeAs, Parsed};
use sovereign::envoy_types::{BuildVersion, DiscoveryRequest, DiscoveryResponse, SemanticVersion};
use sovereign::handler::{conditional_reply, filter_instances, reply, resource_type_of, select, Reply};
use sovereign::json::Json;
use sovereign::sources::{
    match_keys, poll, poll_sources, poll_sources_into_buckets, refresh, InstancesPackage,
    SourceDest, SourceError,
};
use sovereign::templates::{State, XdsTemplate};
use sovereign::text::decimal_string;

fn s(v: &str) -> Json {
    Json::Str(v.to_string())
}

fn n(v: &str) -> Json {
    Json::Number(v.to_string())
}

fn obj(entries: Vec<(&str, Json)>) -> Json {
    Json::Object(entries.into_iter().map(|(k, v)| (k.to_string(), v)).collect())
}

fn template(version: &str, resource_type: &str, path: &str) -> XdsTemplate {
    XdsTemplate {
        path: path.to_string(),
        envoy_version: version.to_string(),
        resource_type: resource_type.to_string(),
        deserialize_as: DeserializeAs::Json,
        call_python: None,
    }
}

fn request(cluster: &str, version: &str) -> DiscoveryRequest {
    DiscoveryRequest::new(cluster.to_string(), version.to_string(), None)
}

fn hash_text(text: &str) -> String {
    xxhash_rust::xxh64::xxh64(text.as_bytes(), 0).to_string()
}

fn bucket<'a>(pkgs: &'a [InstancesPackage], key: &str) -> Option<&'a Vec<Json>> {
    pkgs.iter().find_map(|p| match &p.dest {
        SourceDest::Match(k) if k == key => Some(&p.instances),
        _ => None,
    })
}

#[test]
fn miss_lists_known_templates() {
    let state = State::new(&vec![template("default", "clusters", "c.j2")]);
    let req = request("X", "1.25.4");
    match select(&state, "discovery:listeners", &req, &vec![]) {
        Err(Reply::NotFound { resource_type, version, known }) => {
            assert_eq!(resource_type, "listeners");
            assert_eq!(version, "1.25.4");
            assert_eq!(known, vec!["default/clusters".to_string()]);
        }
        _ => panic!("expected a miss"),
    }
    let r: Result<sovereign::handler::Selected, Reply> =
        select(&state, "discovery:listeners", &req, &vec![]);
    assert_eq!(r.err().unwrap().status(), 404);
}

#[test]
fn default_hit_renders_envelope() {
    let state = State::new(&vec![template("default", "clusters", "c.j2")]);
    let req = request("X", "1.25.4");
    let sel = match select(&state, "discovery:clusters", &req, &vec![]) {
        Ok(sel) => sel,
        Err(_) => panic!("expected a template"),
    };
    assert_eq!(sel.template.name(), "default/clusters");
    let text = "[{\"a\":1}]".to_string();
    let h = hash_text(&text);
    let r = reply(Ok(text), sel.template.deserialize_as, &req.version_info);
    assert_eq!(r.status(), 200);
    match r {
        Reply::Resources { body } => {
            assert_eq!(body, format!("{{\"version_info\": \"{h}\", \"resources\": [{{\"a\":1}}]}}"));
        }
        _ => panic!("expected a body"),
    }
}

#[test]
fn prefix_override_wins() {
    let state = State::new(&vec![
        template("default", "clusters", "default.j2"),
        template("1.25", "clusters", "override.j2"),
    ]);
    let t = state.template("1.25.9", "clusters").unwrap();
    assert_eq!(t.path, "override.j2");
    let t = state.template("2.0.0", "clusters").unwrap();
    assert_eq!(t.path, "default.j2");
    let t = state.template("1.25", "clusters").unwrap();
    assert_eq!(t.path, "override.j2");
    let t = state.template("1.250", "clusters").unwrap();
    assert_eq!(t.path, "default.j2");
}

#[test]
fn longest_prefix_among_several() {
    let state = State::new(&vec![
        template("1", "clusters", "one.j2"),
        template("1.25", "clusters", "one25.j2"),
        template("1.25.4", "clusters", "exact.j2"),
    ]);
    assert_eq!(state.template("1.25.4", "clusters").unwrap().path, "exact.j2");
    assert_eq!(state.template("1.25.5", "clusters").unwrap().path, "one25.j2");
    assert_eq!(state.template("1.3.0", "clusters").unwrap().path, "one.j2");
    assert!(state.template("2.0", "clusters").is_none());
    assert!(state.template("1.25.4", "listeners").is_none());
}

#[test]
fn later_template_replaces_earlier() {
    let state = State::new(&vec![
        template("default", "clusters", "first.j2"),
        template("default", "clusters", "second.j2"),
    ]);
    assert_eq!(state.template("1.0", "clusters").unwrap().path, "second.j2");
    assert_eq!(state.names().len(), 1);
}

#[test]
fn conditional_not_modified() {
    let text = "[{\"a\":1}]";
    let h = hash_text(text);
    let r = reply(Ok(text.to_string()), DeserializeAs::Json, &Some(h.clone()));
    assert!(matches!(r, Reply::NotModified));
    assert_eq!(r.status(), 304);
    let again = reply(Ok(text.to_string()), DeserializeAs::Json, &Some("0".to_string()));
    match again {
        Reply::Resources { body } => assert!(body.contains(&h)),
        _ => panic!("expected a body"),
    }
}

#[test]
fn conditional_reply_uses_given_hash() {
    let r = conditional_reply("[]", 42, DeserializeAs::Plaintext, &None);
    match r {
        Reply::Resources { body } => {
            assert_eq!(body, "{\"version_info\": \"42\", \"resources\": []}")
        }
        _ => panic!("expected a body"),
    }
    let r = conditional_reply("[]", 42, DeserializeAs::Json, &Some("42".to_string()));
    assert!(matches!(r, Reply::NotModified));
}

#[test]
fn yaml_is_reencoded_as_json() {
    let r = conditional_reply("- a: 1\n", 7, DeserializeAs::Yaml, &None);
    match r {
        Reply::Resources { body } => {
            assert_eq!(body, "{\"version_info\": \"7\", \"resources\": [{\"a\":1}]}")
        }
        _ => panic!("expected a body"),
    }
    let r = conditional_reply("a: [1\n", 7, DeserializeAs::Yaml, &None);
    assert_eq!(r.status(), 500);
}

#[test]
fn render_error_is_server_error() {
    let r = reply(Err("boom".to_string()), DeserializeAs::Json, &None);
    match r {
        Reply::ServerError { message } => assert_eq!(message, "boom"),
        _ => panic!("expected an error"),
    }
}

#[test]
fn hash_is_xxh64_in_decimal() {
    for text in ["", "[]", "[{\"a\":1}]", "héllo wörld"] {
        assert_eq!(sovereign::envoy_types::version_info_of(text), hash_text(text));
    }
    let resp = DiscoveryResponse::new("[1,2]".to_string());
    assert_eq!(resp.version_info, hash_text("[1,2]"));
    assert_eq!(resp.resources, "[1,2]");
}

#[test]
fn keyed_filter_selects_cluster() {
    let payloads = vec![Json::Array(vec![
        obj(vec![("svc", s("A")), ("v", n("1"))]),
        obj(vec![("svc", s("B")), ("v", n("2"))]),
    ])];
    let pkgs = poll_sources_into_buckets(&payloads, "svc").unwrap();
    let seen = filter_instances(&pkgs, "A");
    assert_eq!(seen, vec![obj(vec![("svc", s("A")), ("v", n("1"))])]);
    let seen = filter_instances(&pkgs, "C");
    assert!(seen.is_empty());
}

#[test]
fn fan_out_to_named_buckets() {
    let both = obj(vec![("svc", Json::Array(vec![s("a"), s("b")]))]);
    let only_a = obj(vec![("svc", s("a"))]);
    let missing = obj(vec![("other", s("a"))]);
    let number = obj(vec![("svc", n("3"))]);
    let payloads = vec![Json::Array(vec![
        both.clone(),
        only_a.clone(),
        missing,
        number,
    ])];
    let pkgs = poll_sources_into_buckets(&payloads, "svc").unwrap();
    assert_eq!(pkgs.len(), 2);
    assert_eq!(bucket(&pkgs, "a").unwrap(), &vec![both.clone(), only_a]);
    assert_eq!(bucket(&pkgs, "b").unwrap(), &vec![both]);
}

#[test]
fn fan_out_skips_non_strings_in_array() {
    let inst = obj(vec![("svc", Json::Array(vec![s("a"), n("1"), s("a"), Json::Null]))]);
    let keys = match_keys(&inst, "svc");
    assert_eq!(keys, vec!["a".to_string(), "a".to_string()]);
    let pkgs = poll_sources_into_buckets(&vec![Json::Array(vec![inst.clone()])], "svc").unwrap();
    assert_eq!(pkgs.len(), 1);
    assert_eq!(bucket(&pkgs, "a").unwrap(), &vec![inst.clone(), inst]);
}

#[test]
fn ungrouped_concatenates_in_source_order() {
    let payloads = vec![
        Json::Array(vec![n("1"), n("2")]),
        Json::Array(vec![]),
        Json::Array(vec![n("3")]),
    ];
    let pkgs = poll_sources(&payloads).unwrap();
    assert_eq!(pkgs.len(), 1);
    assert!(matches!(pkgs[0].dest, SourceDest::Any));
    assert_eq!(pkgs[0].instances, vec![n("1"), n("2"), n("3")]);
    let seen = filter_instances(&pkgs, "anything");
    assert_eq!(seen, vec![n("1"), n("2"), n("3")]);
}

#[test]
fn non_array_payload_is_rejected() {
    let payloads = vec![Json::Array(vec![]), obj(vec![]), s("x")];
    assert_eq!(poll_sources(&payloads).err(), Some(SourceError::NotAnArray { index: 1 }));
    assert_eq!(
        poll_sources_into_buckets(&payloads, "svc").err(),
        Some(SourceError::NotAnArray { index: 1 })
    );
}

#[test]
fn refresh_keeps_prior_snapshot_on_failure() {
    let prior = poll_sources(&vec![Json::Array(vec![obj(vec![("n", n("1"))])])]).unwrap();
    let kept = refresh(prior, &vec![None], &None);
    assert_eq!(kept.len(), 1);
    assert_eq!(kept[0].instances, vec![obj(vec![("n", n("1"))])]);
    let kept = refresh(kept, &vec![Some(s("not an array"))], &None);
    assert_eq!(kept[0].instances, vec![obj(vec![("n", n("1"))])]);
    let fresh = refresh(kept, &vec![Some(Json::Array(vec![n("2")]))], &None);
    assert_eq!(fresh[0].instances, vec![n("2")]);
}

#[test]
fn refresh_in_keyed_mode() {
    let matching = Some(NodeMatching { source_key: "svc".to_string() });
    let fresh = refresh(
        vec![],
        &vec![Some(Json::Array(vec![obj(vec![("svc", s("A"))])]))],
        &matching,
    );
    assert_eq!(fresh.len(), 1);
    assert!(matches!(&fresh[0].dest, SourceDest::Match(k) if k == "A"));
    let direct = poll(&vec![Json::Array(vec![n("1")])], &None).unwrap();
    assert_eq!(direct[0].instances, vec![n("1")]);
}

#[test]
fn build_version_takes_precedence() {
    let mut req = request("X", "1.25.4");
    req.node.user_agent_build_version =
        Some(BuildVersion { version: SemanticVersion { major_number: 9, minor_number: 9, patch: 9 } });
    assert_eq!(req.envoy_version().unwrap(), "1.25.4");
    req.node.build_version = None;
    assert_eq!(req.envoy_version().unwrap(), "9.9.9");
    req.node.user_agent_build_version = None;
    assert!(req.envoy_version().is_none());
    match select(&State::new(&vec![]), "discovery:clusters", &req, &vec![]) {
        Err(Reply::BadRequest { message }) => assert_eq!(message, "No envoy version"),
        _ => panic!("expected a bad request"),
    }
}

#[test]
fn semantic_version_text() {
    let v = SemanticVersion { major_number: 1, minor_number: 25, patch: 255 };
    assert_eq!(v.text(), "1.25.255");
    let v = SemanticVersion { major_number: 0, minor_number: 0, patch: 0 };
    assert_eq!(v.text(), "0.0.0");
}

#[test]
fn request_accessors() {
    let req = DiscoveryRequest::new(
        "cl".to_string(),
        "1.2".to_string(),
        Some(vec!["a".to_string(), "b".to_string()]),
    );
    assert_eq!(req.cluster(), "cl");
    assert_eq!(req.resource_names(), vec!["a".to_string(), "b".to_string()]);
    assert_eq!(req.version_info, Some("0".to_string()));
    assert!(request("cl", "1").resource_names().is_empty());
}

#[test]
fn decimal_text() {
    assert_eq!(decimal_string(0), "0");
    assert_eq!(decimal_string(10), "10");
    assert_eq!(decimal_string(u64::MAX), u64::MAX.to_string());
}

#[test]
fn route_suffix() {
    assert_eq!(resource_type_of("discovery:clusters"), Some("clusters".to_string()));
    assert_eq!(resource_type_of("a:b:c"), Some("b:c".to_string()));
    assert_eq!(resource_type_of("discovery"), None);
    let state = State::new(&vec![template("default", "clusters", "c.j2")]);
    let r = select(&state, "clusters", &request("X", "1"), &vec![]);
    assert!(matches!(r, Err(Reply::UnknownRoute)));
}

#[test]
fn json_lookup() {
    let o = obj(vec![("k", s("first")), ("k", s("second")), ("a", Json::Array(vec![]))]);
    assert_eq!(o.get("k"), Some(&s("first")));
    assert_eq!(o.get("missing"), None);
    assert_eq!(o.get("a").unwrap().as_array(), Some(&vec![]));
    assert_eq!(s("x").as_str(), Some(&"x".to_string()));
    assert_eq!(Json::Null.get("k"), None);
}

#[test]
fn cluster_names_skip_empty_entries() {
    let server = DiscoveryServer {
        sources: vec![Some(Instance { name: "helloworld".to_string() }), None],
    };
    assert_eq!(server.cluster_names(), vec!["helloworld".to_string()]);
}

#[test]
fn excerpt_around_error_line() {
    let lines: Vec<String> = (1..=12).map(|i| format!("l{i}")).collect();
    let out = sovereign::handler::excerpt_lines(&lines, 7, 2);
    let mut expected: Vec<String> = (2..=12).map(|i| format!("{i}: l{i}")).collect();
    expected.insert(6, "     ^".to_string());
    assert_eq!(out, expected);
    let out = sovereign::handler::excerpt_lines(&lines, 3, 0);
    let mut expected: Vec<String> = (1..=8).map(|i| format!("{i}: l{i}")).collect();
    expected.insert(3, "   ^".to_string());
    assert_eq!(out, expected);
}

#[test]
fn yaml_excerpt_points_at_error() {
    let text = "a: 1\nb: [\nc: 2\n";
    let out = sovereign::handler::yaml_error_excerpt(text);
    assert!(!out.is_empty());
    assert!(out.iter().any(|l| l.trim_end().ends_with('^')));
    assert!(out.contains(&"1: a: 1".to_string()));
    assert!(out.contains(&"2: b: [".to_string()));
    assert!(sovereign::handler::yaml_error_excerpt("a: 1\n").is_empty());
}


#[test]
fn empty_version_and_empty_sources() {
    let state = State::new(&vec![
        template("default", "clusters", "default.j2"),
        template("", "clusters", "blank.j2"),
    ]);
    assert_eq!(state.template("", "clusters").unwrap().path, "blank.j2");
    assert_eq!(state.template(".5", "clusters").unwrap().path, "blank.j2");
    assert_eq!(state.template("1.2", "clusters").unwrap().path, "default.j2");
    let pkgs = poll_sources(&vec![]).unwrap();
    assert_eq!(pkgs.len(), 1);
    assert!(pkgs[0].instances.is_empty());
    assert!(poll_sources_into_buckets(&vec![], "svc").unwrap().is_empty());
    assert!(filter_instances(&vec![], "A").is_empty());
}

#[test]
fn deserialize_as_defaults_to_json() {
    assert_eq!(DeserializeAs::default(), DeserializeAs::Json);
}

#[test]
fn matched_and_shared_packages_both_reach_node() {
    let pkgs = vec![
        InstancesPackage { dest: SourceDest::Match("B".to_string()), instances: vec![n("1")] },
        InstancesPackage { dest: SourceDest::Any, instances: vec![n("2")] },
        InstancesPackage { dest: SourceDest::Match("A".to_string()), instances: vec![n("3")] },
    ];
    assert_eq!(filter_instances(&pkgs, "A"), vec![n("2"), n("3")]);
    assert_eq!(filter_instances(&pkgs, "B"), vec![n("1"), n("2")]);
    assert_eq!(filter_instances(&pkgs, "a"), vec![n("2")]);
}

#[test]
fn context_refresh_is_all_or_nothing() {
    let whole = context_snapshot(vec![
        ("a".to_string(), Some(Parsed::Text("x".to_string()))),
        ("b".to_string(), Some(Parsed::Structured(n("1")))),
    ])
    .unwrap();
    assert_eq!(whole.len(), 2);
    assert_eq!(whole[0].0, "a");
    assert!(matches!(&whole[1].1, Parsed::Structured(Json::Number(v)) if v == "1"));
    let failed = context_snapshot(vec![
        ("a".to_string(), Some(Parsed::Text("x".to_string()))),
        ("b".to_string(), None),
    ]);
    assert!(failed.is_none());
    assert_eq!(context_snapshot(vec![]).map(|v| v.len()), Some(0));
}

#[test]
fn fetch_discovery_request() {
    let d = DiscoveryRequest::new(
        String::from("T1"),
        String::from("whatever"),
        Some(vec![String::from("hello")]),
    );
    assert_eq!(d.cluster(), "T1");
    assert_eq!(d.resource_names(), vec![String::from("hello")]);
    let server = DiscoveryServer {
        sources: vec![Some(Instance { name: "helloworld".to_string() })],
    };
    assert_eq!(server.cluster_names(), vec!["helloworld".to_string()]);
}
