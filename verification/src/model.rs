//! The Istio networking resources that the analysis reads, and resource keys.

use vstd::prelude::*;
use crate::labels::Labels;

verus! {

/// Name and namespace of a cluster object.
#[derive(Clone, Debug, PartialEq)]
pub struct ObjectMeta {
    /// The object's name (its generated name when it has no name).
    pub name: String,
    pub namespace: Option<String>,
}

#[derive(Clone, Debug, PartialEq)]
pub struct Port {
    pub number: u32,
    pub name: String,
    pub protocol: String,
}

#[derive(Clone, Debug, PartialEq)]
pub struct Server {
    pub port: Option<Port>,
    pub hosts: Vec<String>,
}

#[derive(Debug, PartialEq)]
pub struct GatewaySpec {
    pub selector: Option<Labels>,
    pub servers: Option<Vec<Server>>,
}

#[derive(Debug, PartialEq)]
pub struct VirtualServiceSpec {
    pub hosts: Vec<String>,
    pub gateways: Option<Vec<String>>,
    pub http: Option<Vec<HttpRoute>>,
}

#[derive(Clone, Debug, PartialEq)]
pub struct HttpRoute {
    pub name: Option<String>,
    /// The route's match conditions (`match` in the resource).
    pub match_requests: Option<Vec<HttpMatchRequest>>,
    pub route: Option<Vec<HttpRouteDestination>>,
}

#[derive(Clone, Debug, PartialEq)]
pub struct HttpMatchRequest {
    pub uri: Option<StringMatch>,
}

#[derive(Clone, Debug, PartialEq)]
pub enum StringMatch {
    Exact(String),
    Prefix(String),
    Regex(String),
}

#[derive(Clone, Debug, PartialEq)]
pub struct HttpRouteDestination {
    pub destination: Destination,
    pub weight: Option<i32>,
}

#[derive(Clone, Debug, PartialEq)]
pub struct Destination {
    pub host: String,
    pub subset: Option<String>,
    pub port: Option<PortSelector>,
}

#[derive(Clone, Copy, Debug, PartialEq)]
pub struct PortSelector {
    pub number: Option<u32>,
}

#[derive(Debug, PartialEq)]
pub struct DestinationRuleSpec {
    pub host: String,
    pub subsets: Option<Vec<Subset>>,
}

#[derive(Debug, PartialEq)]
pub struct Subset {
    pub name: String,
    pub labels: Option<Labels>,
}

#[derive(Clone, Debug, PartialEq)]
pub struct ServiceEntrySpec {
    pub hosts: Vec<String>,
    pub location: Option<String>,
    pub resolution: Option<String>,
}

/// An Istio `Gateway`.
#[derive(Debug, PartialEq)]
pub struct Gateway {
    pub metadata: ObjectMeta,
    pub spec: GatewaySpec,
}

/// An Istio `VirtualService`.
#[derive(Debug, PartialEq)]
pub struct VirtualService {
    pub metadata: ObjectMeta,
    pub spec: VirtualServiceSpec,
}

/// An Istio `DestinationRule`.
#[derive(Debug, PartialEq)]
pub struct DestinationRule {
    pub metadata: ObjectMeta,
    pub spec: DestinationRuleSpec,
}

/// An Istio `ServiceEntry`.
#[derive(Clone, Debug, PartialEq)]
pub struct ServiceEntry {
    pub metadata: ObjectMeta,
    pub spec: ServiceEntrySpec,
}

/// Namespace and name of a Kubernetes service.
#[derive(Clone, Debug, PartialEq, Eq, Hash, PartialOrd, Ord)]
pub struct ResourceKey {
    pub namespace: String,
    pub name: String,
}

impl View for ResourceKey {
    type V = (Seq<char>, Seq<char>);

    open spec fn view(&self) -> (Seq<char>, Seq<char>) {
        (self.namespace@, self.name@)
    }
}

impl ResourceKey {
    pub fn new(namespace: &str, name: &str) -> (k: ResourceKey)
        ensures
            k@ == (namespace@, name@),
    {
        ResourceKey { namespace: String::from_str(namespace), name: String::from_str(name) }
    }

    /// Whether two keys name the same service.
    pub fn same_as(&self, other: &ResourceKey) -> (b: bool)
        ensures
            b == (self@ == other@),
    {
        self.namespace == other.namespace && self.name == other.name
    }
}

/// The characters of an optional string, or `default` when it is absent.
pub open spec fn text_or(o: Option<String>, default: Seq<char>) -> Seq<char> {
    match o {
        Some(s) => s@,
        None => default,
    }
}

/// An optional string, or `default` when it is absent (`unwrap_or_default`, `unwrap_or_else`).
pub fn string_or(o: &Option<String>, default: &str) -> (r: String)
    ensures
        r@ == text_or(*o, default@),
{
    match o {
        Some(s) => s.clone(),
        None => String::from_str(default),
    }
}

/// The characters of each string.
pub open spec fn strings_view(v: Seq<String>) -> Seq<Seq<char>> {
    v.map_values(|s: String| s@)
}

/// A copy of a list of strings.
pub fn clone_strings(v: &Vec<String>) -> (r: Vec<String>)
    ensures
        strings_view(r@) == strings_view(v@),
{
    let mut r: Vec<String> = Vec::new();
    for i in 0..v.len()
        invariant
            r@.len() == i,
            strings_view(r@) == strings_view(v@).take(i as int),
    {
        let s = v[i].clone();
        let ghost prev = r@;
        r.push(s);
        assert(strings_view(r@) =~= strings_view(v@).take(i + 1)) by {
            assert forall|j: int| 0 <= j < i implies strings_view(r@)[j] == strings_view(v@)[j] by {
                assert(r@[j] == prev[j]);
                assert(strings_view(prev)[j] == strings_view(v@).take(i as int)[j]);
            }
        }
    }
    assert(strings_view(v@).take(v@.len() as int) =~= strings_view(v@));
    r
}

/// Whether `v` holds a string equal to `s` (`HashSet::contains` over the list).
pub fn contains_string(v: &Vec<String>, s: &str) -> (b: bool)
    ensures
        b == strings_view(v@).contains(s@),
{
    let t = String::from_str(s);
    for i in 0..v.len()
        invariant
            t@ == s@,
            forall|j: int| 0 <= j < i ==> v@[j]@ != s@,
    {
        if v[i] == t {
            assert(strings_view(v@)[i as int] == s@);
            return true;
        }
    }
    assert forall|j: int| 0 <= j < v@.len() implies strings_view(v@)[j] != s@ by {
        assert(v@[j]@ != s@);
    }
    false
}

} // verus!
