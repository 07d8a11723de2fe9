//! Instance sources and the aggregation of their payloads into packages.
use vstd::prelude::*;

use crate::config::NodeMatching;
use crate::json::{copy_json, views, Json, JsonView};

verus! {

/// Where instance data comes from.
pub enum Source {
    Inline { data: Json },
    PythonInline { code: String },
    PythonScript { path: String },
    Http { url: String },
    File { path: String },
}

/// Which nodes a package of instances is intended for.
pub enum SourceDest {
    Any,
    Match(String),
}

/// A pre-coalesced group of instances, for one destination.
pub struct InstancesPackage {
    pub dest: SourceDest,
    pub instances: Vec<Json>,
}

/// The value of a package: its destination (`None` for every node) and
/// its instances.
pub struct PackageView {
    pub dest: Option<Seq<char>>,
    pub instances: Seq<JsonView>,
}

impl View for InstancesPackage {
    type V = PackageView;

    open spec fn view(&self) -> PackageView {
        PackageView {
            dest: match self.dest {
                SourceDest::Any => None,
                SourceDest::Match(k) => Some(k@),
            },
            instances: views(self.instances@),
        }
    }
}

impl Clone for SourceDest {
    fn clone(&self) -> (r: Self)
        ensures
            r == *self,
    {
        match self {
            SourceDest::Any => SourceDest::Any,
            SourceDest::Match(k) => SourceDest::Match(k.clone()),
        }
    }
}

impl Clone for InstancesPackage {
    fn clone(&self) -> (r: Self)
        ensures
            r@ == self@,
    {
        let mut instances: Vec<Json> = Vec::new();
        let mut i: usize = 0;
        while i < self.instances.len()
            invariant
                0 <= i <= self.instances@.len(),
                instances@.len() == i,
                forall|m: int| 0 <= m < i ==> #[trigger] instances@[m]@ == self.instances@[m]@,
            decreases self.instances@.len() - i,
        {
            instances.push(copy_json(&self.instances[i]));
            i = i + 1;
        }
        let r = InstancesPackage { dest: self.dest.clone(), instances };
        assert(views(r.instances@) =~= views(self.instances@));
        r
    }
}

pub open spec fn package_views(s: Seq<InstancesPackage>) -> Seq<PackageView> {
    s.map_values(|p: InstancesPackage| p@)
}

pub open spec fn string_views(s: Seq<String>) -> Seq<Seq<char>> {
    s.map_values(|x: String| x@)
}

/// Why a poll of the sources was rejected.
#[derive(PartialEq, Eq, Structural, Clone, Copy, Debug)]
pub enum SourceError {
    /// The payload of the source at `index` is not a JSON array.
    NotAnArray { index: usize },
}

/// The position of the first payload that is not an array.
pub open spec fn first_non_array(payloads: Seq<JsonView>) -> Option<int>
    decreases payloads.len(),
{
    if payloads.len() == 0 {
        None
    } else {
        match first_non_array(payloads.drop_last()) {
            Some(i) => Some(i),
            None => if payloads.last() is Array {
                None
            } else {
                Some(payloads.len() - 1)
            },
        }
    }
}

/// The elements of all array payloads, in payload order.
pub open spec fn concat_items(payloads: Seq<JsonView>) -> Seq<JsonView>
    decreases payloads.len(),
{
    if payloads.len() == 0 {
        Seq::empty()
    } else {
        concat_items(payloads.drop_last()) + match payloads.last() {
            JsonView::Array(a) => a,
            _ => Seq::empty(),
        }
    }
}

/// The string elements of an array, in order.
pub open spec fn strings_in(a: Seq<JsonView>) -> Seq<Seq<char>>
    decreases a.len(),
{
    if a.len() == 0 {
        Seq::empty()
    } else {
        strings_in(a.drop_last()) + match a.last() {
            JsonView::Str(s) => seq![s],
            _ => Seq::empty(),
        }
    }
}

/// The bucket keys an instance names in field `key`: a string names one,
/// an array names each of its strings, anything else names none.
pub open spec fn keys_of(inst: JsonView, key: Seq<char>) -> Seq<Seq<char>> {
    match inst.field(key) {
        Some(JsonView::Str(s)) => seq![s],
        Some(JsonView::Array(a)) => strings_in(a),
        _ => Seq::empty(),
    }
}

/// How many times `k` occurs in `keys`.
pub open spec fn occurrences(keys: Seq<Seq<char>>, k: Seq<char>) -> nat
    decreases keys.len(),
{
    if keys.len() == 0 {
        0
    } else {
        occurrences(keys.drop_last(), k) + if keys.last() == k {
            1nat
        } else {
            0nat
        }
    }
}

/// The bucket `k`: each instance in order, once for each time it names `k`.
pub open spec fn bucket(insts: Seq<JsonView>, key: Seq<char>, k: Seq<char>) -> Seq<JsonView>
    decreases insts.len(),
{
    if insts.len() == 0 {
        Seq::empty()
    } else {
        bucket(insts.drop_last(), key, k) + Seq::new(
            occurrences(keys_of(insts.last(), key), k),
            |i: int| insts.last(),
        )
    }
}

/// `pkgs` holds exactly the non-empty buckets of `insts`, one package per
/// key, in any order.
pub open spec fn is_bucketing(pkgs: Seq<PackageView>, insts: Seq<JsonView>, key: Seq<char>) -> bool {
    &&& forall|p: int|
        #![trigger pkgs[p]]
        0 <= p < pkgs.len() ==> {
            &&& pkgs[p].dest is Some
            &&& pkgs[p].instances == bucket(insts, key, pkgs[p].dest->0)
            &&& pkgs[p].instances.len() > 0
        }
    &&& forall|p: int, q: int| 0 <= p < q < pkgs.len() ==> pkgs[p].dest != pkgs[q].dest
    &&& forall|k: Seq<char>|
        #![trigger bucket(insts, key, k)]
        bucket(insts, key, k).len() > 0 ==> exists|p: int|
            0 <= p < pkgs.len() && pkgs[p].dest == Some(k)
}

/// A poll result over `payloads`: rejected at the first payload that is not
/// an array; otherwise one package for every node with all instances, or,
/// in keyed mode, the buckets of field `key`.
pub open spec fn is_poll_result(
    r: Result<Seq<PackageView>, SourceError>,
    payloads: Seq<JsonView>,
    key: Option<Seq<char>>,
) -> bool {
    match first_non_array(payloads) {
        Some(i) => r == Err::<Seq<PackageView>, SourceError>(
            SourceError::NotAnArray { index: i as usize },
        ),
        None => match r {
            Ok(pkgs) => match key {
                None => pkgs == seq![
                    PackageView { dest: None, instances: concat_items(payloads) },
                ],
                Some(k) => is_bucketing(pkgs, concat_items(payloads), k),
            },
            Err(_) => false,
        },
    }
}

pub open spec fn result_views(r: Result<Vec<InstancesPackage>, SourceError>) -> Result<
    Seq<PackageView>,
    SourceError,
> {
    match r {
        Ok(v) => Ok(package_views(v@)),
        Err(e) => Err(e),
    }
}

proof fn lemma_first_non_array_prefix(s: Seq<JsonView>, j: int)
    requires
        0 <= j <= s.len(),
        first_non_array(s.take(j)) is Some,
    ensures
        first_non_array(s) == first_non_array(s.take(j)),
    decreases s.len() - j,
{
    if j < s.len() {
        assert(s.drop_last().take(j) =~= s.take(j));
        lemma_first_non_array_prefix(s.drop_last(), j);
    } else {
        assert(s.take(j) =~= s);
    }
}

proof fn lemma_occurrences_positive(keys: Seq<Seq<char>>, k: Seq<char>)
    ensures
        occurrences(keys, k) > 0 <==> keys.contains(k),
    decreases keys.len(),
{
    if keys.len() > 0 {
        lemma_occurrences_positive(keys.drop_last(), k);
        if keys.drop_last().contains(k) {
            let w = choose|w: int| 0 <= w < keys.drop_last().len() && keys.drop_last()[w] == k;
            assert(keys[w] == k);
        }
        if keys.contains(k) && keys.last() != k {
            let w = choose|w: int| 0 <= w < keys.len() && keys[w] == k;
            assert(keys.drop_last()[w] == k);
        }
    }
}

/// Some instance of `insts` names `k`.
pub open spec fn named(insts: Seq<JsonView>, key: Seq<char>, k: Seq<char>) -> bool {
    exists|i: int| 0 <= i < insts.len() && #[trigger] keys_of(insts[i], key).contains(k)
}

proof fn lemma_bucket_nonempty(insts: Seq<JsonView>, key: Seq<char>, k: Seq<char>)
    ensures
        bucket(insts, key, k).len() > 0 <==> named(insts, key, k),
    decreases insts.len(),
{
    if insts.len() > 0 {
        let init = insts.drop_last();
        lemma_bucket_nonempty(init, key, k);
        lemma_occurrences_positive(keys_of(insts.last(), key), k);
        if named(insts, key, k) {
            let i = choose|i: int| 0 <= i < insts.len() && #[trigger] keys_of(insts[i], key).contains(k);
            if i < insts.len() - 1 {
                assert(keys_of(init[i], key).contains(k));
            }
        }
        if named(init, key, k) {
            let i = choose|i: int| 0 <= i < init.len() && #[trigger] keys_of(init[i], key).contains(k);
            assert(keys_of(insts[i], key).contains(k));
        }
    }
}

/// Gathers the elements of all payloads, which must all be arrays.
pub fn collect_instances(payloads: &Vec<Json>) -> (r: Result<Vec<Json>, SourceError>)
    ensures
        match first_non_array(views(payloads@)) {
            Some(i) => r == Err::<Vec<Json>, SourceError>(
                SourceError::NotAnArray { index: i as usize },
            ),
            None => r is Ok && views(r->Ok_0@) == concat_items(views(payloads@)),
        },
{
    let ghost pv = views(payloads@);
    let mut out: Vec<Json> = Vec::new();
    let mut i: usize = 0;
    assert(pv.take(0) =~= Seq::<JsonView>::empty());
    while i < payloads.len()
        invariant
            0 <= i <= payloads@.len(),
            pv == views(payloads@),
            first_non_array(pv.take(i as int)) is None,
            views(out@) == concat_items(pv.take(i as int)),
        decreases payloads@.len() - i,
    {
        assert(pv.take(i + 1).drop_last() =~= pv.take(i as int));
        match payloads[i].as_array() {
            None => {
                proof {
                    lemma_first_non_array_prefix(pv, i + 1);
                }
                return Err(SourceError::NotAnArray { index: i });
            },
            Some(a) => {
                let mut m: usize = 0;
                assert(views(a@).take(0) =~= Seq::<JsonView>::empty());
                assert(views(out@) =~= concat_items(pv.take(i as int)) + views(a@).take(0));
                while m < a.len()
                    invariant
                        0 <= m <= a@.len(),
                        views(out@) == concat_items(pv.take(i as int)) + views(a@).take(m as int),
                    decreases a@.len() - m,
                {
                    let e = copy_json(&a[m]);
                    let ghost before = out@;
                    out.push(e);
                    assert(views(out@) =~= views(before).push(a@[m as int]@));
                    assert(views(a@).take(m + 1) =~= views(a@).take(m as int).push(a@[m as int]@));
                    assert(views(out@) =~= concat_items(pv.take(i as int)) + views(a@).take(m + 1));
                    m = m + 1;
                }
                assert(views(a@).take(m as int) =~= views(a@));
                assert(views(out@) =~= concat_items(pv.take(i + 1)));
            },
        }
        i = i + 1;
    }
    assert(pv.take(i as int) =~= pv);
    Ok(out)
}

/// Polls in ungrouped mode: one package for every node, with the
/// instances of all sources in source order.
pub fn poll_sources(payloads: &Vec<Json>) -> (r: Result<Vec<InstancesPackage>, SourceError>)
    ensures
        is_poll_result(result_views(r), views(payloads@), None),
{
    match collect_instances(payloads) {
        Err(e) => Err(e),
        Ok(instances) => {
            let pkg = InstancesPackage { dest: SourceDest::Any, instances };
            let r = vec![pkg];
            assert(package_views(r@) =~= seq![pkg@]);
            Ok(r)
        },
    }
}

/// The bucket keys that `inst` names in field `key`.
pub fn match_keys(inst: &Json, key: &str) -> (r: Vec<String>)
    ensures
        string_views(r@) == keys_of(inst@, key@),
{
    let mut out: Vec<String> = Vec::new();
    match inst.get(key) {
        None => {
            assert(string_views(out@) =~= Seq::<Seq<char>>::empty());
        },
        Some(field) => match field.as_str() {
            Some(s) => {
                out.push(s.clone());
                assert(string_views(out@) =~= seq![s@]);
            },
            None => match field.as_array() {
                None => {
                    assert(string_views(out@) =~= Seq::<Seq<char>>::empty());
                },
                Some(a) => {
                    let ghost av = views(a@);
                    let mut i: usize = 0;
                    assert(av.take(0) =~= Seq::<JsonView>::empty());
                    assert(string_views(out@) =~= strings_in(av.take(0)));
                    while i < a.len()
                        invariant
                            0 <= i <= a@.len(),
                            av == views(a@),
                            string_views(out@) == strings_in(av.take(i as int)),
                        decreases a@.len() - i,
                    {
                        assert(av.take(i + 1).drop_last() =~= av.take(i as int));
                        let ghost before = out@;
                        match a[i].as_str() {
                            Some(s) => {
                                out.push(s.clone());
                                assert(string_views(out@) =~= string_views(before) + seq![s@]);
                            },
                            None => {},
                        }
                        assert(string_views(out@) =~= strings_in(av.take(i + 1)));
                        i = i + 1;
                    }
                    assert(av.take(i as int) =~= av);
                },
            },
        },
    }
    out
}

/// How many times `k` occurs in `keys`.
pub fn count_occurrences(keys: &Vec<String>, k: &String) -> (r: usize)
    ensures
        r == occurrences(string_views(keys@), k@),
{
    let ghost kv = string_views(keys@);
    let mut n: usize = 0;
    let mut i: usize = 0;
    assert(kv.take(0) =~= Seq::<Seq<char>>::empty());
    while i < keys.len()
        invariant
            0 <= i <= keys@.len(),
            kv == string_views(keys@),
            n == occurrences(kv.take(i as int), k@),
            n <= i,
        decreases keys@.len() - i,
    {
        assert(kv.take(i + 1).drop_last() =~= kv.take(i as int));
        if keys[i] == *k {
            n = n + 1;
        }
        i = i + 1;
    }
    assert(kv.take(i as int) =~= kv);
    n
}

/// The position of `k` in `keys`.
fn position_of(keys: &Vec<String>, k: &String) -> (r: Option<usize>)
    ensures
        match r {
            Some(p) => p < keys@.len() && keys@[p as int]@ == k@,
            None => forall|p: int| 0 <= p < keys@.len() ==> keys@[p]@ != k@,
        },
{
    let mut i: usize = 0;
    while i < keys.len()
        invariant
            0 <= i <= keys@.len(),
            forall|p: int| 0 <= p < i ==> keys@[p]@ != k@,
        decreases keys@.len() - i,
    {
        if keys[i] == *k {
            return Some(i);
        }
        i = i + 1;
    }
    None
}

/// Every key that some instance names, each once.
fn distinct_keys(insts: &Vec<Json>, key: &str) -> (r: Vec<String>)
    ensures
        forall|a: int, b: int| 0 <= a < b < r@.len() ==> r@[a]@ != r@[b]@,
        forall|a: int| 0 <= a < r@.len() ==> named(views(insts@), key@, #[trigger] r@[a]@),
        forall|k: Seq<char>|
            #[trigger] named(views(insts@), key@, k) ==> exists|a: int|
                0 <= a < r@.len() && r@[a]@ == k,
{
    let ghost iv = views(insts@);
    let mut out: Vec<String> = Vec::new();
    let mut i: usize = 0;
    while i < insts.len()
        invariant
            0 <= i <= insts@.len(),
            iv == views(insts@),
            forall|a: int, b: int| 0 <= a < b < out@.len() ==> out@[a]@ != out@[b]@,
            forall|a: int| 0 <= a < out@.len() ==> named(iv, key@, #[trigger] out@[a]@),
            forall|k: Seq<char>|
                #[trigger] named(iv.take(i as int), key@, k) ==> exists|a: int|
                    0 <= a < out@.len() && out@[a]@ == k,
        decreases insts@.len() - i,
    {
        let ks = match_keys(&insts[i], key);
        let ghost kv = keys_of(iv[i as int], key@);
        let mut j: usize = 0;
        while j < ks.len()
            invariant
                0 <= i < insts@.len(),
                0 <= j <= ks@.len(),
                iv == views(insts@),
                string_views(ks@) == kv,
                kv == keys_of(iv[i as int], key@),
                forall|a: int, b: int| 0 <= a < b < out@.len() ==> out@[a]@ != out@[b]@,
                forall|a: int| 0 <= a < out@.len() ==> named(iv, key@, #[trigger] out@[a]@),
                forall|k: Seq<char>|
                    #[trigger] named(iv.take(i as int), key@, k) ==> exists|a: int|
                        0 <= a < out@.len() && out@[a]@ == k,
                forall|jj: int|
                    0 <= jj < j ==> exists|a: int|
                        0 <= a < out@.len() && out@[a]@ == #[trigger] kv[jj],
            decreases ks@.len() - j,
        {
            assert(kv[j as int] == ks@[j as int]@);
            match position_of(&out, &ks[j]) {
                Some(_) => {},
                None => {
                    let ghost before = out@;
                    out.push(ks[j].clone());
                    proof {
                        assert(out@[before.len() as int]@ == kv[j as int]);
                        assert(kv.contains(kv[j as int]));
                        assert(named(iv, key@, kv[j as int]));
                        assert forall|a: int| 0 <= a < out@.len() implies named(
                            iv,
                            key@,
                            #[trigger] out@[a]@,
                        ) by {
                            if a < before.len() {
                                assert(out@[a] == before[a]);
                            }
                        }
                        assert forall|k: Seq<char>| #[trigger]
                            named(iv.take(i as int), key@, k) implies exists|a: int|
                            0 <= a < out@.len() && out@[a]@ == k by {
                            let a = choose|a: int| 0 <= a < before.len() && before[a]@ == k;
                            assert(out@[a] == before[a]);
                        }
                        assert forall|jj: int| 0 <= jj < j + 1 implies exists|a: int|
                            0 <= a < out@.len() && out@[a]@ == #[trigger] kv[jj] by {
                            if jj < j {
                                let a = choose|a: int| 0 <= a < before.len() && before[a]@ == kv[jj];
                                assert(out@[a] == before[a]);
                            } else {
                                assert(out@[before.len() as int]@ == kv[jj]);
                            }
                        }
                    }
                },
            }
            j = j + 1;
        }
        proof {
            assert forall|k: Seq<char>| #[trigger]
                named(iv.take(i + 1), key@, k) implies exists|a: int|
                0 <= a < out@.len() && out@[a]@ == k by {
                let ii = choose|ii: int|
                    0 <= ii < iv.take(i + 1).len() && #[trigger] keys_of(iv.take(i + 1)[ii], key@).contains(k);
                if ii == i {
                    let jj = choose|jj: int| 0 <= jj < kv.len() && kv[jj] == k;
                    assert(exists|a: int| 0 <= a < out@.len() && out@[a]@ == #[trigger] kv[jj]);
                } else {
                    assert(iv.take(i as int)[ii] == iv.take(i + 1)[ii]);
                    assert(named(iv.take(i as int), key@, k));
                }
            }
        }
        i = i + 1;
    }
    assert(iv.take(i as int) =~= iv);
    out
}

/// The bucket `k` of `insts` under field `key`.
fn build_bucket(insts: &Vec<Json>, key: &str, k: &String) -> (r: Vec<Json>)
    ensures
        views(r@) == bucket(views(insts@), key@, k@),
{
    let ghost iv = views(insts@);
    let mut out: Vec<Json> = Vec::new();
    let mut i: usize = 0;
    assert(iv.take(0) =~= Seq::<JsonView>::empty());
    while i < insts.len()
        invariant
            0 <= i <= insts@.len(),
            iv == views(insts@),
            views(out@) == bucket(iv.take(i as int), key@, k@),
        decreases insts@.len() - i,
    {
        assert(iv.take(i + 1).drop_last() =~= iv.take(i as int));
        let ks = match_keys(&insts[i], key);
        let c = count_occurrences(&ks, k);
        let ghost start = views(out@);
        let mut m: usize = 0;
        while m < c
            invariant
                0 <= m <= c,
                0 <= i < insts@.len(),
                views(out@) == start + Seq::new(m as nat, |x: int| insts@[i as int]@),
            decreases c - m,
        {
            let e = copy_json(&insts[i]);
            let ghost before = out@;
            out.push(e);
            assert(views(out@) =~= views(before).push(e@));
            assert(views(out@) =~= start + Seq::new((m + 1) as nat, |x: int| insts@[i as int]@));
            m = m + 1;
        }
        assert(iv.take(i + 1).last() == insts@[i as int]@);
        assert(views(out@) =~= bucket(iv.take(i + 1), key@, k@));
        i = i + 1;
    }
    assert(iv.take(i as int) =~= iv);
    out
}

/// Polls in keyed mode: one package for each key that some instance names
/// in field `source_match_key`, holding the instances that name it.
pub fn poll_sources_into_buckets(payloads: &Vec<Json>, source_match_key: &str) -> (r: Result<
    Vec<InstancesPackage>,
    SourceError,
>)
    ensures
        is_poll_result(result_views(r), views(payloads@), Some(source_match_key@)),
{
    let insts = match collect_instances(payloads) {
        Err(e) => {
            return Err(e);
        },
        Ok(v) => v,
    };
    let ghost iv = views(insts@);
    let keys = distinct_keys(&insts, source_match_key);
    let mut out: Vec<InstancesPackage> = Vec::new();
    let mut a: usize = 0;
    while a < keys.len()
        invariant
            0 <= a <= keys@.len(),
            iv == views(insts@),
            out@.len() == a,
            forall|p: int|
                0 <= p < a ==> #[trigger] out@[p]@ == (PackageView {
                    dest: Some(keys@[p]@),
                    instances: bucket(iv, source_match_key@, keys@[p]@),
                }),
        decreases keys@.len() - a,
    {
        let b = build_bucket(&insts, source_match_key, &keys[a]);
        out.push(InstancesPackage { dest: SourceDest::Match(keys[a].clone()), instances: b });
        a = a + 1;
    }
    let ghost pv = package_views(out@);
    proof {
        assert forall|p: int| 0 <= p < pv.len() implies #[trigger] pv[p].instances.len() > 0 by {
            assert(pv[p] == out@[p]@);
            assert(named(iv, source_match_key@, keys@[p]@));
            lemma_bucket_nonempty(iv, source_match_key@, keys@[p]@);
        }
        assert forall|p: int, q: int| 0 <= p < q < pv.len() implies pv[p].dest != pv[q].dest by {
            assert(pv[p] == out@[p]@);
            assert(pv[q] == out@[q]@);
        }
        assert forall|k: Seq<char>|
            #[trigger] bucket(iv, source_match_key@, k).len() > 0 implies exists|p: int|
                0 <= p < pv.len() && pv[p].dest == Some(k) by {
            lemma_bucket_nonempty(iv, source_match_key@, k);
            let p = choose|p: int| 0 <= p < keys@.len() && keys@[p]@ == k;
            assert(pv[p] == out@[p]@);
        }
    }
    Ok(out)
}

/// The match field of keyed mode, if keyed mode is on.
pub open spec fn match_key(matching: Option<NodeMatching>) -> Option<Seq<char>> {
    match matching {
        Some(m) => Some(m.source_key@),
        None => None,
    }
}

/// Polls in the mode that `matching` selects.
pub fn poll(payloads: &Vec<Json>, matching: &Option<NodeMatching>) -> (r: Result<
    Vec<InstancesPackage>,
    SourceError,
>)
    ensures
        is_poll_result(result_views(r), views(payloads@), match_key(*matching)),
{
    match matching {
        Some(m) => poll_sources_into_buckets(payloads, m.source_key.as_str()),
        None => poll_sources(payloads),
    }
}

/// Every source of the tick delivered a payload.
pub open spec fn all_fetched(fetched: Seq<Option<Json>>) -> bool {
    forall|i: int| 0 <= i < fetched.len() ==> (#[trigger] fetched[i]) is Some
}

/// The payloads of a tick in which every source delivered one.
pub open spec fn fetched_payloads(fetched: Seq<Option<Json>>) -> Seq<JsonView> {
    Seq::new(fetched.len(), |i: int| fetched[i]->0@)
}

/// The views of a tick's fetch outcomes.
pub open spec fn outcome_views(fetched: Seq<Option<Json>>) -> Seq<Option<JsonView>> {
    fetched.map_values(|o: Option<Json>| match o {
        Some(j) => Some(j@),
        None => None,
    })
}

/// A tick whose sources all delivered payloads that are all arrays.
pub open spec fn tick_succeeds(outcomes: Seq<Option<JsonView>>) -> bool {
    &&& forall|i: int| 0 <= i < outcomes.len() ==> (#[trigger] outcomes[i]) is Some
    &&& first_non_array(outcome_payloads(outcomes)) is None
}

pub open spec fn outcome_payloads(outcomes: Seq<Option<JsonView>>) -> Seq<JsonView> {
    Seq::new(outcomes.len(), |i: int| outcomes[i]->0)
}

/// How one tick turns snapshot `prev` into `next`: a successful tick
/// publishes a whole poll result of its payloads, any other tick keeps
/// `prev` whole.
pub open spec fn refresh_step(
    prev: Seq<PackageView>,
    outcomes: Seq<Option<JsonView>>,
    key: Option<Seq<char>>,
    next: Seq<PackageView>,
) -> bool {
    if tick_succeeds(outcomes) {
        is_poll_result(Ok(next), outcome_payloads(outcomes), key)
    } else {
        next == prev
    }
}

/// One refresh tick. `fetched` holds, in source order, the payload of each
/// source, or `None` where fetching or decoding it failed. The snapshot
/// that results is never a mix: it is the whole current one, unless every
/// source delivered and the poll succeeded, and then it is the whole poll
/// result of this tick.
pub fn refresh(
    current: Vec<InstancesPackage>,
    fetched: &Vec<Option<Json>>,
    matching: &Option<NodeMatching>,
) -> (r: Vec<InstancesPackage>)
    ensures
        !all_fetched(fetched@) ==> r@ == current@,
        all_fetched(fetched@) && first_non_array(fetched_payloads(fetched@)) is Some ==> r@
            == current@,
        all_fetched(fetched@) && first_non_array(fetched_payloads(fetched@)) is None
            ==> is_poll_result(
            Ok(package_views(r@)),
            fetched_payloads(fetched@),
            match_key(*matching),
        ),
        refresh_step(
            package_views(current@),
            outcome_views(fetched@),
            match_key(*matching),
            package_views(r@),
        ),
{
    proof {
        let ov = outcome_views(fetched@);
        if all_fetched(fetched@) {
            assert(outcome_payloads(ov) =~= fetched_payloads(fetched@));
        } else {
            let i = choose|i: int| 0 <= i < fetched@.len() && !(fetched@[i] is Some);
            assert(!(ov[i] is Some));
        }
        if tick_succeeds(ov) {
            assert forall|i: int| 0 <= i < fetched@.len() implies (#[trigger] fetched@[i]) is Some by {
                assert(ov[i] is Some);
            }
            assert(outcome_payloads(ov) =~= fetched_payloads(fetched@));
        }
    }
    let mut payloads: Vec<Json> = Vec::new();
    let mut i: usize = 0;
    while i < fetched.len()
        invariant
            0 <= i <= fetched@.len(),
            payloads@.len() == i,
            forall|m: int| 0 <= m < i ==> (#[trigger] fetched@[m]) is Some,
            forall|m: int| 0 <= m < i ==> #[trigger] payloads@[m]@ == fetched@[m]->0@,
        decreases fetched@.len() - i,
    {
        match &fetched[i] {
            None => {
                assert(!(outcome_views(fetched@)[i as int] is Some));
                return current;
            },
            Some(j) => {
                payloads.push(copy_json(j));
            },
        }
        i = i + 1;
    }
    assert(views(payloads@) =~= fetched_payloads(fetched@));
    match poll(&payloads, matching) {
        Ok(r) => r,
        Err(_) => current,
    }
}

proof fn lemma_strings_in(a: Seq<JsonView>, k: Seq<char>)
    ensures
        strings_in(a).contains(k) <==> exists|j: int| 0 <= j < a.len() && a[j] == JsonView::Str(k),
    decreases a.len(),
{
    if a.len() > 0 {
        let init = a.drop_last();
        lemma_strings_in(init, k);
        let tail = match a.last() {
            JsonView::Str(s) => seq![s],
            _ => Seq::<Seq<char>>::empty(),
        };
        assert(strings_in(a) == strings_in(init) + tail);
        if strings_in(a).contains(k) {
            let w = choose|w: int| 0 <= w < strings_in(a).len() && strings_in(a)[w] == k;
            if w < strings_in(init).len() {
                assert(strings_in(init)[w] == k);
                let j = choose|j: int| 0 <= j < init.len() && init[j] == JsonView::Str(k);
                assert(a[j] == init[j]);
            } else {
                assert(a[a.len() - 1] == JsonView::Str(k));
            }
        }
        if exists|j: int| 0 <= j < a.len() && a[j] == JsonView::Str(k) {
            let j = choose|j: int| 0 <= j < a.len() && a[j] == JsonView::Str(k);
            if j < a.len() - 1 {
                assert(init[j] == JsonView::Str(k));
                let w = choose|w: int| 0 <= w < strings_in(init).len() && strings_in(init)[w] == k;
                assert(strings_in(a)[w] == k);
            } else {
                assert(strings_in(a)[strings_in(a).len() - 1] == k);
            }
        }
    }
}

/// Fan-out in keyed mode: an instance lands in bucket `k` exactly when its
/// match field is the string `k`, or an array with the string `k` among its
/// elements; an instance whose field is missing, or neither a string nor an
/// array, lands in no bucket.
pub proof fn lemma_fan_out(inst: JsonView, key: Seq<char>, k: Seq<char>)
    ensures
        bucket(seq![inst], key, k).len() > 0 <==> match inst.field(key) {
            Some(JsonView::Str(s)) => s == k,
            Some(JsonView::Array(a)) => exists|j: int| 0 <= j < a.len() && a[j] == JsonView::Str(k),
            _ => false,
        },
{
    let one = seq![inst];
    assert(one.drop_last() =~= Seq::<JsonView>::empty());
    assert(one.last() == inst);
    assert(bucket(one.drop_last(), key, k).len() == 0);
    assert(bucket(one, key, k).len() == occurrences(keys_of(inst, key), k));
    lemma_occurrences_positive(keys_of(inst, key), k);
    match inst.field(key) {
        Some(JsonView::Str(s)) => {
            assert(keys_of(inst, key) == seq![s]);
            if s == k {
                assert(keys_of(inst, key)[0] == k);
            } else {
                assert(!keys_of(inst, key).contains(k));
            }
        },
        Some(JsonView::Array(a)) => {
            lemma_strings_in(a, k);
        },
        _ => {},
    }
}

/// Snapshot atomicity: along any run of refresh ticks, where `history[j + 1]`
/// is what tick `j` made of `history[j]`, every snapshot that readers can
/// observe is the initial one or the whole poll result of one successful
/// tick; none mixes ticks or holds part of one.
pub proof fn lemma_snapshots_whole(
    history: Seq<Seq<PackageView>>,
    ticks: Seq<Seq<Option<JsonView>>>,
    key: Option<Seq<char>>,
)
    requires
        history.len() == ticks.len() + 1,
        forall|j: int|
            0 <= j < ticks.len() ==> refresh_step(
                history[j],
                #[trigger] ticks[j],
                key,
                history[j + 1],
            ),
    ensures
        forall|j: int|
            0 <= j < history.len() ==> #[trigger] history[j] == history[0] || exists|t: int|
                0 <= t < j && tick_succeeds(ticks[t]) && is_poll_result(
                    Ok(history[j]),
                    outcome_payloads(ticks[t]),
                    key,
                ),
    decreases ticks.len(),
{
    if ticks.len() > 0 {
        let h = history.drop_last();
        let k = ticks.drop_last();
        assert forall|j: int| 0 <= j < k.len() implies refresh_step(
            h[j],
            #[trigger] k[j],
            key,
            h[j + 1],
        ) by {
            assert(k[j] == ticks[j]);
            assert(h[j] == history[j] && h[j + 1] == history[j + 1]);
        }
        lemma_snapshots_whole(h, k, key);
        assert forall|j: int| 0 <= j < history.len() implies #[trigger] history[j] == history[0]
            || exists|t: int|
            0 <= t < j && tick_succeeds(ticks[t]) && is_poll_result(
                Ok(history[j]),
                outcome_payloads(ticks[t]),
                key,
            ) by {
            if j < h.len() {
                assert(h[j] == history[j]);
                if h[j] != h[0] {
                    let t = choose|t: int|
                        0 <= t < j && tick_succeeds(k[t]) && is_poll_result(
                            Ok(h[j]),
                            outcome_payloads(k[t]),
                            key,
                        );
                    assert(k[t] == ticks[t]);
                }
            } else {
                let last = ticks.len() - 1;
                assert(refresh_step(history[last], ticks[last], key, history[last + 1]));
                if !tick_succeeds(ticks[last]) {
                    assert(h[last] == history[last]);
                    if h[last] != h[0] {
                        let t = choose|t: int|
                            0 <= t < last && tick_succeeds(k[t]) && is_poll_result(
                                Ok(h[last]),
                                outcome_payloads(k[t]),
                                key,
                            );
                        assert(k[t] == ticks[t]);
                    }
                }
            }
        }
    }
}

} // verus!
