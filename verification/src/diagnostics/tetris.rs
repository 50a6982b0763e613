//! Node capacity slices ("tetris"): allocatable capacity against the requests and
//! limits of the pods placed on each node, and the QoS class of each pod.

use vstd::prelude::*;
use crate::model::{string_or, text_or};
use crate::objects::{ContainerResources, NodeRecord, PodRecord};
use crate::seqs::{concat_map, lemma_concat_map_all, lemma_concat_map_empty, lemma_concat_map_step};
use crate::text::{chars_of, str_eq};
use crate::diagnostics::timeline::is_text;

verus! {

/// Allocatable capacity of a node against the requests and limits placed on it.
#[derive(Debug, Clone, Copy, PartialEq, Eq, Structural)]
pub struct ResourceAllocation {
    pub allocatable: i64,
    pub requests: i64,
    pub limits: i64,
}

/// The capacity profile of one node.
#[derive(Debug, Clone, PartialEq)]
pub struct NodeTetrisProfile {
    pub node_name: String,
    /// Millicores.
    pub cpu: ResourceAllocation,
    /// MiB.
    pub memory: ResourceAllocation,
    /// `namespace/name` of the pods of each QoS class.
    pub best_effort_pods: Vec<String>,
    pub burstable_pods: Vec<String>,
    pub guaranteed_pods: Vec<String>,
}

pub struct NodeTetrisProfileView {
    pub node_name: Seq<char>,
    pub cpu: ResourceAllocation,
    pub memory: ResourceAllocation,
    pub best_effort_pods: Seq<Seq<char>>,
    pub burstable_pods: Seq<Seq<char>>,
    pub guaranteed_pods: Seq<Seq<char>>,
}

impl View for NodeTetrisProfile {
    type V = NodeTetrisProfileView;

    open spec fn view(&self) -> NodeTetrisProfileView {
        NodeTetrisProfileView {
            node_name: self.node_name@,
            cpu: self.cpu,
            memory: self.memory,
            best_effort_pods: crate::model::strings_view(self.best_effort_pods@),
            burstable_pods: crate::model::strings_view(self.burstable_pods@),
            guaranteed_pods: crate::model::strings_view(self.guaranteed_pods@),
        }
    }
}

pub open spec fn profiles_view(v: Seq<NodeTetrisProfile>) -> Seq<NodeTetrisProfileView> {
    v.map_values(|p: NodeTetrisProfile| p@)
}

/// Kubernetes quality-of-service class of a pod.
#[derive(Debug, Clone, Copy, PartialEq, Eq, Structural)]
pub enum QosClass {
    Guaranteed,
    Burstable,
    BestEffort,
}

/// A decimal digit.
pub open spec fn is_digit(c: char) -> bool {
    '0' <= c && c <= '9'
}

/// Value of a string of decimal digits.
pub open spec fn digits_value(s: Seq<char>) -> int
    decreases s.len(),
{
    if s.len() == 0 {
        0
    } else {
        digits_value(s.drop_last()) * 10 + (s.last() as int - '0' as int)
    }
}

pub open spec fn all_digits(s: Seq<char>) -> bool {
    s.len() > 0 && forall|i: int| 0 <= i < s.len() ==> is_digit(#[trigger] s[i])
}

/// The integer written as an optional `+` or `-` followed by one or more decimal digits.
pub open spec fn decimal_integer(s: Seq<char>) -> Option<int> {
    if s.len() > 0 && (s[0] == '+' || s[0] == '-') {
        if all_digits(s.drop_first()) {
            if s[0] == '-' {
                Some(-digits_value(s.drop_first()))
            } else {
                Some(digits_value(s.drop_first()))
            }
        } else {
            None
        }
    } else if all_digits(s) {
        Some(digits_value(s))
    } else {
        None
    }
}

/// What `str::parse::<i64>` yields: the decimal integer when it fits in an `i64`.
pub open spec fn parsed_i64(s: Seq<char>) -> Option<i64> {
    match decimal_integer(s) {
        Some(v) => if i64::MIN <= v <= i64::MAX {
            Some(v as i64)
        } else {
            None
        },
        None => None,
    }
}

/// Parses a decimal `i64` with `str::parse::<i64>`: an optional sign and one or more
/// ASCII digits, the value fitting in an `i64`; anything else is an error.
#[verifier::external_body]
fn parse_i64(s: &str) -> (r: Option<i64>)
    ensures
        r == parsed_i64(s@),
{
    s.parse::<i64>().ok()
}

/// The bound below which a whole amount is exactly representable through a 64-bit float
/// and the unit factors used here.
pub open spec fn exact_whole(n: i64) -> bool {
    -1_000_000_000_000 <= n <= 1_000_000_000_000
}

/// `s` with a trailing `suffix` removed, when it ends with it.
pub open spec fn strip_suffix(s: Seq<char>, suffix: Seq<char>) -> Option<Seq<char>> {
    if suffix.len() <= s.len() && s.subrange(s.len() - suffix.len(), s.len() as int) == suffix {
        Some(s.subrange(0, s.len() - suffix.len()))
    } else {
        None
    }
}

/// CPU millicores of a quantity: `<n>m` is `n` (0 when `n` does not parse); a whole
/// number of cores `n` is `n * 1000`. `None`: the quantity is fractional or out of that
/// range, and its value is computed in floating point by the caller.
pub open spec fn cpu_millis(q: Seq<char>) -> Option<i64> {
    match strip_suffix(q, seq!['m']) {
        Some(num) => Some(
            match parsed_i64(num) {
                Some(v) => v,
                None => 0,
            },
        ),
        None => match parsed_i64(q) {
            Some(n) => if exact_whole(n) {
                Some((n * 1000) as i64)
            } else {
                None
            },
            None => None,
        },
    }
}

/// Division truncated toward zero, as a float-to-integer conversion truncates.
pub open spec fn div_toward_zero(n: int, d: int) -> int {
    if n >= 0 {
        n / d
    } else {
        -((-n) / d)
    }
}

/// The number of a memory quantity and the factor (`mul / div`) that turns it into MiB:
/// the binary units `Ki`, `Mi`, `Gi`, `Ti`, `Pi`, `Ei`, the decimal units `k`, `M`, `G`,
/// `T`, `P`, `E`, milli-bytes `m`, or plain bytes when no unit is recognised.
pub open spec fn memory_split(q: Seq<char>) -> (Seq<char>, int, int) {
    match strip_suffix(q, seq!['K', 'i']) {
        Some(n) => (n, 1int, 1024int),
        None =>
            match strip_suffix(q, seq!['M', 'i']) {
                Some(n) => (n, 1int, 1int),
                None =>
                    match strip_suffix(q, seq!['G', 'i']) {
                        Some(n) => (n, 1024int, 1int),
                        None =>
                            match strip_suffix(q, seq!['T', 'i']) {
                                Some(n) => (n, 1048576int, 1int),
                                None =>
                                    match strip_suffix(q, seq!['P', 'i']) {
                                        Some(n) => (n, 1073741824int, 1int),
                                        None =>
                                            match strip_suffix(q, seq!['E', 'i']) {
                                                Some(n) => (n, 1099511627776int, 1int),
                                                None =>
                                                    match strip_suffix(q, seq!['k']) {
                                                        Some(n) => (n, 1000int, 1048576int),
                                                        None =>
                                                            match strip_suffix(q, seq!['M']) {
                                                                Some(n) => (n, 1000000int, 1048576int),
                                                                None =>
                                                                    match strip_suffix(q, seq!['G']) {
                                                                        Some(n) => (n, 1000000000int, 1048576int),
                                                                        None =>
                                                                            match strip_suffix(q, seq!['T']) {
                                                                                Some(n) => (n, 1000000000000int, 1048576int),
                                                                                None =>
                                                                                    match strip_suffix(q, seq!['P']) {
                                                                                        Some(n) => (n, 1000000000000000int, 1048576int),
                                                                                        None =>
                                                                                            match strip_suffix(q, seq!['E']) {
                                                                                                Some(n) => (n, 1000000000000000000int, 1048576int),
                                                                                                None =>
                                                                                                    match strip_suffix(q, seq!['m']) {
                                                                                                        Some(n) => (n, 1int, 1048576000int),
                                                                                                        None =>
                                                                                                            (q, 1int, 1048576int),
                                                                                                    },
                                                                                            },
                                                                                    },
                                                                            },
                                                                    },
                                                            },
                                                    },
                                            },
                                    },
                            },
                    },
            },
    }
}

/// Memory MiB of a quantity with a whole number before its unit (see `memory_split`),
/// truncated toward zero. `None`: the number is fractional, not a number or out of
/// range, or the amount does not fit in an `i64`, and the caller computes it in floating
/// point.
pub open spec fn memory_mib(q: Seq<char>) -> Option<i64> {
    let (num, mul, div) = memory_split(q);
    match parsed_i64(num) {
        Some(n) => if exact_whole(n) && i64::MIN <= div_toward_zero(n * mul, div) <= i64::MAX {
            Some(div_toward_zero(n * mul, div) as i64)
        } else {
            None
        },
        None => None,
    }
}

fn ends_with(cs: &Vec<char>, suffix: &Vec<char>) -> (r: bool)
    ensures
        r == (suffix@.len() <= cs@.len() && cs@.subrange(cs@.len() - suffix@.len(), cs@.len() as int) == suffix@),
{
    if suffix.len() > cs.len() {
        return false;
    }
    let start = cs.len() - suffix.len();
    for j in 0..suffix.len()
        invariant
            start + suffix@.len() == cs@.len(),
            start + suffix.len() == cs.len(),
            forall|k: int| 0 <= k < j ==> cs@[start + k] == suffix@[k],
    {
        if cs[start + j] != suffix[j] {
            assert(cs@.subrange(start as int, cs@.len() as int)[j as int] != suffix@[j as int]);
            return false;
        }
    }
    assert(cs@.subrange(start as int, cs@.len() as int) =~= suffix@);
    true
}

/// Splits a unit suffix off a quantity.
fn strip<'a>(q: &'a str, suffix: &str) -> (r: Option<&'a str>)
    ensures
        match r {
            Some(n) => strip_suffix(q@, suffix@) == Some(n@),
            None => strip_suffix(q@, suffix@) is None,
        },
{
    let cs = chars_of(q);
    let sx = chars_of(suffix);
    if ends_with(&cs, &sx) {
        Some(q.substring_char(0, cs.len() - sx.len()))
    } else {
        None
    }
}

/// CPU quantity in millicores (see `cpu_millis`).
pub fn parse_cpu_quantity(q: &str) -> (r: Option<i64>)
    ensures
        r == cpu_millis(q@),
{
    proof {
        reveal_strlit("m");
    }
    match strip(q, "m") {
        Some(num) => {
            assert("m"@ =~= seq!['m']);
            match parse_i64(num) {
                Some(v) => Some(v),
                None => Some(0),
            }
        },
        None => {
            assert("m"@ =~= seq!['m']);
            match parse_i64(q) {
                Some(n) => {
                    if -1_000_000_000_000 <= n && n <= 1_000_000_000_000 {
                        Some(n * 1000)
                    } else {
                        None
                    }
                },
                None => None,
            }
        },
    }
}

/// Splits a memory quantity into its number and the factor `mul / div` to MiB (see
/// `memory_split`).
pub fn memory_unit(q: &str) -> (r: (&str, i64, i64))
    ensures
        (r.0@, r.1 as int, r.2 as int) == memory_split(q@),
{
    proof {
        reveal_strlit("Ki");
        assert("Ki"@ =~= seq!['K', 'i']);
        reveal_strlit("Mi");
        assert("Mi"@ =~= seq!['M', 'i']);
        reveal_strlit("Gi");
        assert("Gi"@ =~= seq!['G', 'i']);
        reveal_strlit("Ti");
        assert("Ti"@ =~= seq!['T', 'i']);
        reveal_strlit("Pi");
        assert("Pi"@ =~= seq!['P', 'i']);
        reveal_strlit("Ei");
        assert("Ei"@ =~= seq!['E', 'i']);
        reveal_strlit("k");
        assert("k"@ =~= seq!['k']);
        reveal_strlit("M");
        assert("M"@ =~= seq!['M']);
        reveal_strlit("G");
        assert("G"@ =~= seq!['G']);
        reveal_strlit("T");
        assert("T"@ =~= seq!['T']);
        reveal_strlit("P");
        assert("P"@ =~= seq!['P']);
        reveal_strlit("E");
        assert("E"@ =~= seq!['E']);
        reveal_strlit("m");
        assert("m"@ =~= seq!['m']);
    }
    match strip(q, "Ki") {
        Some(n) => { return (n, 1, 1024); },
        None => {},
    }
    match strip(q, "Mi") {
        Some(n) => { return (n, 1, 1); },
        None => {},
    }
    match strip(q, "Gi") {
        Some(n) => { return (n, 1024, 1); },
        None => {},
    }
    match strip(q, "Ti") {
        Some(n) => { return (n, 1048576, 1); },
        None => {},
    }
    match strip(q, "Pi") {
        Some(n) => { return (n, 1073741824, 1); },
        None => {},
    }
    match strip(q, "Ei") {
        Some(n) => { return (n, 1099511627776, 1); },
        None => {},
    }
    match strip(q, "k") {
        Some(n) => { return (n, 1000, 1048576); },
        None => {},
    }
    match strip(q, "M") {
        Some(n) => { return (n, 1000000, 1048576); },
        None => {},
    }
    match strip(q, "G") {
        Some(n) => { return (n, 1000000000, 1048576); },
        None => {},
    }
    match strip(q, "T") {
        Some(n) => { return (n, 1000000000000, 1048576); },
        None => {},
    }
    match strip(q, "P") {
        Some(n) => { return (n, 1000000000000000, 1048576); },
        None => {},
    }
    match strip(q, "E") {
        Some(n) => { return (n, 1000000000000000000, 1048576); },
        None => {},
    }
    match strip(q, "m") {
        Some(n) => { return (n, 1, 1048576000); },
        None => {},
    }
    (q, 1, 1048576)
}

/// Memory quantity in MiB (see `memory_mib`).
pub fn parse_memory_quantity(q: &str) -> (r: Option<i64>)
    ensures
        r == memory_mib(q@),
{
    let (num, mul, div) = memory_unit(q);
    match parse_i64(num) {
        Some(n) => {
            if -1_000_000_000_000 <= n && n <= 1_000_000_000_000 {
                assert(1 <= mul <= 1_000_000_000_000_000_000 && 1 <= div <= 1_048_576_000);
                assert(-1_000_000_000_000_000_000_000_000_000_000 <= n * mul <= 1_000_000_000_000_000_000_000_000_000_000) by (nonlinear_arith)
                    requires
                        -1_000_000_000_000 <= n <= 1_000_000_000_000,
                        1 <= mul <= 1_000_000_000_000_000_000,
                ;
                let scaled: i128 = (n as i128) * (mul as i128);
                let d: i128 = div as i128;
                let v: i128 = if scaled >= 0 {
                    scaled / d
                } else {
                    -((-scaled) / d)
                };
                if -9_223_372_036_854_775_808 <= v && v <= 9_223_372_036_854_775_807 {
                    Some(v as i64)
                } else {
                    None
                }
            } else {
                None
            }
        },
        None => None,
    }
}


/// Which amount of a container: its request or its limit, of memory or of CPU.
pub open spec fn amount_of(c: ContainerResources, limit: bool, memory: bool) -> int {
    let list = if limit {
        c.limits
    } else {
        c.requests
    };
    match list {
        Some(r) => if memory {
            match r.memory_mib {
                Some(v) => v as int,
                None => 0,
            }
        } else {
            match r.cpu_millis {
                Some(v) => v as int,
                None => 0,
            }
        },
        None => 0,
    }
}

/// Sum of a sequence.
pub open spec fn total(s: Seq<int>) -> int
    decreases s.len(),
{
    if s.len() == 0 {
        0
    } else {
        total(s.drop_last()) + s.last()
    }
}

/// Every running sum of the sequence fits in an `i64`.
pub open spec fn running_sums_fit(s: Seq<int>) -> bool {
    forall|k: int| 0 <= k <= s.len() ==> i64::MIN <= #[trigger] total(s.take(k)) <= i64::MAX
}

pub open spec fn pod_containers(pod: PodRecord) -> Seq<ContainerResources> {
    match pod.containers {
        Some(v) => v@,
        None => Seq::empty(),
    }
}

/// One amount over the containers of a pod.
pub open spec fn container_amounts(pod: PodRecord, limit: bool, memory: bool) -> Seq<int> {
    pod_containers(pod).map_values(|c: ContainerResources| amount_of(c, limit, memory))
}

pub open spec fn pod_amount(pod: PodRecord, limit: bool, memory: bool) -> int {
    total(container_amounts(pod, limit, memory))
}

/// Adding up the pod's amounts container by container stays within `i64`.
pub open spec fn pod_sums_fit(pod: PodRecord) -> bool {
    &&& running_sums_fit(container_amounts(pod, false, false))
    &&& running_sums_fit(container_amounts(pod, true, false))
    &&& running_sums_fit(container_amounts(pod, false, true))
    &&& running_sums_fit(container_amounts(pod, true, true))
}

/// The container lists the resource (CPU or memory) among its requests or its limits.
pub open spec fn lists_amount(c: ContainerResources, limit: bool) -> bool {
    let list = if limit {
        c.limits
    } else {
        c.requests
    };
    match list {
        Some(r) => r.cpu_millis is Some || r.memory_mib is Some,
        None => false,
    }
}

pub open spec fn any_lists(cs: Seq<ContainerResources>, limit: bool) -> bool {
    exists|i: int| 0 <= i < cs.len() && lists_amount(#[trigger] cs[i], limit)
}

/// Best effort without requests and limits; guaranteed when limits are set and the
/// requests equal the limits; burstable otherwise.
pub open spec fn qos_of(pod: PodRecord) -> QosClass {
    let cs = pod_containers(pod);
    let has_requests = any_lists(cs, false);
    let has_limits = any_lists(cs, true);
    let all_match = pod_amount(pod, false, false) == pod_amount(pod, true, false)
        && pod_amount(pod, false, true) == pod_amount(pod, true, true) && has_limits;
    if !has_requests && !has_limits {
        QosClass::BestEffort
    } else if all_match {
        QosClass::Guaranteed
    } else {
        QosClass::Burstable
    }
}

/// The pod is placed on the node and has not finished (`Pending` when it has no phase).
pub open spec fn active_on(pod: PodRecord, node: Seq<char>) -> bool {
    is_text(pod.node_name, node) && {
        let phase = text_or(pod.phase, "Pending"@);
        phase != "Succeeded"@ && phase != "Failed"@
    }
}

/// One amount of each pod, counted only for the pods active on the node.
pub open spec fn node_amounts(pods: Seq<PodRecord>, node: Seq<char>, limit: bool, memory: bool) -> Seq<int> {
    pods.map_values(|p: PodRecord| if active_on(p, node) {
        pod_amount(p, limit, memory)
    } else {
        0
    })
}

/// The profile of a node can be computed without overflow: each active pod's amounts
/// and the node's running totals fit in `i64`.
pub open spec fn node_sums_fit(pods: Seq<PodRecord>, node: Seq<char>) -> bool {
    &&& forall|i: int| 0 <= i < pods.len() && active_on(#[trigger] pods[i], node) ==> pod_sums_fit(pods[i])
    &&& running_sums_fit(node_amounts(pods, node, false, false))
    &&& running_sums_fit(node_amounts(pods, node, true, false))
    &&& running_sums_fit(node_amounts(pods, node, false, true))
    &&& running_sums_fit(node_amounts(pods, node, true, true))
}

/// `namespace/name` of a pod.
pub open spec fn pod_ref(pod: PodRecord) -> Seq<char> {
    text_or(pod.namespace, Seq::empty()) + "/"@ + pod.name@
}

pub open spec fn class_member_fn(node: Seq<char>, class: QosClass) -> spec_fn(PodRecord) -> Seq<Seq<char>> {
    |p: PodRecord|
        if active_on(p, node) && qos_of(p) == class {
            seq![pod_ref(p)]
        } else {
            Seq::empty()
        }
}

/// The pods of one QoS class active on the node, in pod order.
pub open spec fn class_members(pods: Seq<PodRecord>, node: Seq<char>, class: QosClass) -> Seq<Seq<char>> {
    concat_map(pods, class_member_fn(node, class))
}

pub open spec fn profile_of(node: NodeRecord, pods: Seq<PodRecord>) -> NodeTetrisProfileView {
    let n = node.name@;
    NodeTetrisProfileView {
        node_name: n,
        cpu: ResourceAllocation {
            allocatable: match node.allocatable_cpu_millis {
                Some(v) => v,
                None => 0,
            },
            requests: total(node_amounts(pods, n, false, false)) as i64,
            limits: total(node_amounts(pods, n, true, false)) as i64,
        },
        memory: ResourceAllocation {
            allocatable: match node.allocatable_memory_mib {
                Some(v) => v,
                None => 0,
            },
            requests: total(node_amounts(pods, n, false, true)) as i64,
            limits: total(node_amounts(pods, n, true, true)) as i64,
        },
        best_effort_pods: class_members(pods, n, QosClass::BestEffort),
        burstable_pods: class_members(pods, n, QosClass::Burstable),
        guaranteed_pods: class_members(pods, n, QosClass::Guaranteed),
    }
}

/// Every node's profile can be computed without overflow.
pub open spec fn profiles_fit(nodes: Seq<NodeRecord>, pods: Seq<PodRecord>) -> bool {
    forall|i: int| 0 <= i < nodes.len() ==> node_sums_fit(pods, #[trigger] nodes[i].name@)
}

proof fn lemma_total_step(s: Seq<int>, i: int)
    requires
        0 <= i < s.len(),
    ensures
        total(s.take(i + 1)) == total(s.take(i)) + s[i],
{
    assert(s.take(i + 1).drop_last() =~= s.take(i));
}

proof fn lemma_total_all(s: Seq<int>)
    ensures
        total(s.take(s.len() as int)) == total(s),
        total(s.take(0)) == 0,
{
    assert(s.take(s.len() as int) =~= s);
    assert(s.take(0) =~= Seq::<int>::empty());
}

fn amount(list: &Option<crate::objects::ResourceAmounts>, memory: bool) -> (r: (i64, bool))
    ensures
        r.0 == (match *list {
            Some(l) => if memory {
                match l.memory_mib {
                    Some(v) => v as int,
                    None => 0,
                }
            } else {
                match l.cpu_millis {
                    Some(v) => v as int,
                    None => 0,
                }
            },
            None => 0,
        }),
        r.1 == (match *list {
            Some(l) => if memory {
                l.memory_mib is Some
            } else {
                l.cpu_millis is Some
            },
            None => false,
        }),
{
    match list {
        Some(l) => {
            let v = if memory {
                l.memory_mib
            } else {
                l.cpu_millis
            };
            match v {
                Some(x) => (x, true),
                None => (0, false),
            }
        },
        None => (0, false),
    }
}

/// The CPU and memory requests and limits of a pod, summed over its containers, and its
/// QoS class.
pub fn extract_pod_resources(pod: &PodRecord) -> (r: (i64, i64, i64, i64, QosClass))
    requires
        pod_sums_fit(*pod),
    ensures
        r.0 == pod_amount(*pod, false, false),
        r.1 == pod_amount(*pod, true, false),
        r.2 == pod_amount(*pod, false, true),
        r.3 == pod_amount(*pod, true, true),
        r.4 == qos_of(*pod),
{
    let mut req_cpu: i64 = 0;
    let mut lim_cpu: i64 = 0;
    let mut req_mem: i64 = 0;
    let mut lim_mem: i64 = 0;
    let mut has_req = false;
    let mut has_lim = false;
    let ghost cs = pod_containers(*pod);
    let ghost a00 = container_amounts(*pod, false, false);
    let ghost a10 = container_amounts(*pod, true, false);
    let ghost a01 = container_amounts(*pod, false, true);
    let ghost a11 = container_amounts(*pod, true, true);
    proof {
        lemma_total_all(a00);
        lemma_total_all(a10);
        lemma_total_all(a01);
        lemma_total_all(a11);
    }
    if let Some(containers) = &pod.containers {
        for i in 0..containers.len()
            invariant
                cs == containers@,
                a00 == container_amounts(*pod, false, false),
                a10 == container_amounts(*pod, true, false),
                a01 == container_amounts(*pod, false, true),
                a11 == container_amounts(*pod, true, true),
                cs == pod_containers(*pod),
                pod_sums_fit(*pod),
                req_cpu == total(a00.take(i as int)),
                lim_cpu == total(a10.take(i as int)),
                req_mem == total(a01.take(i as int)),
                lim_mem == total(a11.take(i as int)),
                has_req == (exists|j: int| 0 <= j < i && lists_amount(#[trigger] cs[j], false)),
                has_lim == (exists|j: int| 0 <= j < i && lists_amount(#[trigger] cs[j], true)),
        {
            let c = &containers[i];
            proof {
                lemma_total_step(a00, i as int);
                lemma_total_step(a10, i as int);
                lemma_total_step(a01, i as int);
                lemma_total_step(a11, i as int);
                assert(total(a00.take(i + 1)) <= i64::MAX && total(a00.take(i + 1)) >= i64::MIN);
                assert(total(a10.take(i + 1)) <= i64::MAX && total(a10.take(i + 1)) >= i64::MIN);
                assert(total(a01.take(i + 1)) <= i64::MAX && total(a01.take(i + 1)) >= i64::MIN);
                assert(total(a11.take(i + 1)) <= i64::MAX && total(a11.take(i + 1)) >= i64::MIN);
            }
            let (rc, rc_set) = amount(&c.requests, false);
            let (rm, rm_set) = amount(&c.requests, true);
            let (lc, lc_set) = amount(&c.limits, false);
            let (lm, lm_set) = amount(&c.limits, true);
            req_cpu = req_cpu + rc;
            req_mem = req_mem + rm;
            lim_cpu = lim_cpu + lc;
            lim_mem = lim_mem + lm;
            let ghost old_req = has_req;
            let ghost old_lim = has_lim;
            has_req = has_req || rc_set || rm_set;
            has_lim = has_lim || lc_set || lm_set;
            proof {
                assert(lists_amount(cs[i as int], false) == (rc_set || rm_set));
                assert(lists_amount(cs[i as int], true) == (lc_set || lm_set));
                if has_req && !old_req {
                    assert(lists_amount(cs[i as int], false));
                }
                if has_lim && !old_lim {
                    assert(lists_amount(cs[i as int], true));
                }
            }
        }
    } else {
        assert(cs =~= Seq::<ContainerResources>::empty());
    }
    let all_match = !(req_cpu != lim_cpu || req_mem != lim_mem || !has_lim);
    let qos = if !has_req && !has_lim {
        QosClass::BestEffort
    } else if all_match {
        QosClass::Guaranteed
    } else {
        QosClass::Burstable
    };
    (req_cpu, lim_cpu, req_mem, lim_mem, qos)
}


fn is_active_on(pod: &PodRecord, node: &String) -> (b: bool)
    ensures
        b == active_on(*pod, node@),
{
    let on_node = match &pod.node_name {
        Some(n) => *n == *node,
        None => false,
    };
    if !on_node {
        return false;
    }
    let phase = string_or(&pod.phase, "Pending");
    !(str_eq(phase.as_str(), "Succeeded") || str_eq(phase.as_str(), "Failed"))
}

fn qualified_name(pod: &PodRecord) -> (r: String)
    ensures
        r@ == pod_ref(*pod),
{
    proof {
        reveal_strlit("");
    }
    let mut r = string_or(&pod.namespace, "");
    r.append("/");
    r.append(pod.name.as_str());
    r
}

/// The capacity profile of one node.
fn build_profile(node: &NodeRecord, pods: &[PodRecord]) -> (p: NodeTetrisProfile)
    requires
        node_sums_fit(pods@, node.name@),
    ensures
        p@ == profile_of(*node, pods@),
{
    let node_name = node.name.clone();
    let ghost n = node.name@;
    let alloc_cpu: i64 = match node.allocatable_cpu_millis {
        Some(v) => v,
        None => 0,
    };
    let alloc_mem: i64 = match node.allocatable_memory_mib {
        Some(v) => v,
        None => 0,
    };
    let mut req_cpu: i64 = 0;
    let mut lim_cpu: i64 = 0;
    let mut req_mem: i64 = 0;
    let mut lim_mem: i64 = 0;
    let mut best_effort: Vec<String> = Vec::new();
    let mut burstable: Vec<String> = Vec::new();
    let mut guaranteed: Vec<String> = Vec::new();
    let ghost a00 = node_amounts(pods@, n, false, false);
    let ghost a10 = node_amounts(pods@, n, true, false);
    let ghost a01 = node_amounts(pods@, n, false, true);
    let ghost a11 = node_amounts(pods@, n, true, true);
    let ghost fb = class_member_fn(n, QosClass::BestEffort);
    let ghost fu = class_member_fn(n, QosClass::Burstable);
    let ghost fg = class_member_fn(n, QosClass::Guaranteed);
    proof {
        lemma_total_all(a00);
        lemma_total_all(a10);
        lemma_total_all(a01);
        lemma_total_all(a11);
        lemma_concat_map_empty(pods@, fb);
        lemma_concat_map_empty(pods@, fu);
        lemma_concat_map_empty(pods@, fg);
        assert(crate::model::strings_view(best_effort@) =~= Seq::<Seq<char>>::empty());
        assert(crate::model::strings_view(burstable@) =~= Seq::<Seq<char>>::empty());
        assert(crate::model::strings_view(guaranteed@) =~= Seq::<Seq<char>>::empty());
    }
    for i in 0..pods.len()
        invariant
            node_name@ == n,
            n == node.name@,
            node_sums_fit(pods@, n),
            a00 == node_amounts(pods@, n, false, false),
            a10 == node_amounts(pods@, n, true, false),
            a01 == node_amounts(pods@, n, false, true),
            a11 == node_amounts(pods@, n, true, true),
            fb == class_member_fn(n, QosClass::BestEffort),
            fu == class_member_fn(n, QosClass::Burstable),
            fg == class_member_fn(n, QosClass::Guaranteed),
            req_cpu == total(a00.take(i as int)),
            lim_cpu == total(a10.take(i as int)),
            req_mem == total(a01.take(i as int)),
            lim_mem == total(a11.take(i as int)),
            crate::model::strings_view(best_effort@) == concat_map(pods@.take(i as int), fb),
            crate::model::strings_view(burstable@) == concat_map(pods@.take(i as int), fu),
            crate::model::strings_view(guaranteed@) == concat_map(pods@.take(i as int), fg),
    {
        let pod = &pods[i];
        proof {
            lemma_total_step(a00, i as int);
            lemma_total_step(a10, i as int);
            lemma_total_step(a01, i as int);
            lemma_total_step(a11, i as int);
            lemma_concat_map_step(pods@, i as int, fb);
            lemma_concat_map_step(pods@, i as int, fu);
            lemma_concat_map_step(pods@, i as int, fg);
            assert(total(a00.take(i + 1)) <= i64::MAX && total(a00.take(i + 1)) >= i64::MIN);
            assert(total(a10.take(i + 1)) <= i64::MAX && total(a10.take(i + 1)) >= i64::MIN);
            assert(total(a01.take(i + 1)) <= i64::MAX && total(a01.take(i + 1)) >= i64::MIN);
            assert(total(a11.take(i + 1)) <= i64::MAX && total(a11.take(i + 1)) >= i64::MIN);
        }
        let ghost b0 = best_effort@;
        let ghost u0 = burstable@;
        let ghost g0 = guaranteed@;
        if is_active_on(pod, &node_name) {
            assert(pod_sums_fit(pods@[i as int]));
            let (p_req_cpu, p_lim_cpu, p_req_mem, p_lim_mem, qos) = extract_pod_resources(pod);
            req_cpu = req_cpu + p_req_cpu;
            lim_cpu = lim_cpu + p_lim_cpu;
            req_mem = req_mem + p_req_mem;
            lim_mem = lim_mem + p_lim_mem;
            let name = qualified_name(pod);
            let ghost nv = name@;
            match qos {
                QosClass::Guaranteed => guaranteed.push(name),
                QosClass::Burstable => burstable.push(name),
                QosClass::BestEffort => best_effort.push(name),
            }
            proof {
                if qos == QosClass::Guaranteed {
                    assert(crate::model::strings_view(guaranteed@) =~= crate::model::strings_view(g0).push(nv));
                } else {
                    assert(crate::model::strings_view(guaranteed@) =~= crate::model::strings_view(g0));
                }
                if qos == QosClass::Burstable {
                    assert(crate::model::strings_view(burstable@) =~= crate::model::strings_view(u0).push(nv));
                } else {
                    assert(crate::model::strings_view(burstable@) =~= crate::model::strings_view(u0));
                }
                if qos == QosClass::BestEffort {
                    assert(crate::model::strings_view(best_effort@) =~= crate::model::strings_view(b0).push(nv));
                } else {
                    assert(crate::model::strings_view(best_effort@) =~= crate::model::strings_view(b0));
                }
            }
        }
        proof {
            assert(crate::model::strings_view(best_effort@) =~= concat_map(pods@.take(i + 1), fb));
            assert(crate::model::strings_view(burstable@) =~= concat_map(pods@.take(i + 1), fu));
            assert(crate::model::strings_view(guaranteed@) =~= concat_map(pods@.take(i + 1), fg));
        }
    }
    proof {
        lemma_concat_map_all(pods@, fb);
        lemma_concat_map_all(pods@, fu);
        lemma_concat_map_all(pods@, fg);
    }
    NodeTetrisProfile {
        node_name,
        cpu: ResourceAllocation { allocatable: alloc_cpu, requests: req_cpu, limits: lim_cpu },
        memory: ResourceAllocation { allocatable: alloc_mem, requests: req_mem, limits: lim_mem },
        best_effort_pods: best_effort,
        burstable_pods: burstable,
        guaranteed_pods: guaranteed,
    }
}

/// The capacity profile of every node, in node order.
pub fn build_profiles(nodes: &[NodeRecord], pods: &[PodRecord]) -> (profiles: Vec<NodeTetrisProfile>)
    requires
        profiles_fit(nodes@, pods@),
    ensures
        profiles_view(profiles@) == nodes@.map_values(|n: NodeRecord| profile_of(n, pods@)),
{
    let mut profiles: Vec<NodeTetrisProfile> = Vec::new();
    for i in 0..nodes.len()
        invariant
            profiles_fit(nodes@, pods@),
            profiles_view(profiles@) == nodes@.take(i as int).map_values(|n: NodeRecord| profile_of(n, pods@)),
    {
        assert(node_sums_fit(pods@, nodes@[i as int].name@));
        let profile = build_profile(&nodes[i], pods);
        let ghost prev = profiles@;
        profiles.push(profile);
        assert(profiles_view(profiles@) =~= profiles_view(prev).push(profile@));
        assert(nodes@.take(i + 1).map_values(|n: NodeRecord| profile_of(n, pods@)) =~= nodes@.take(i as int).map_values(|n: NodeRecord| profile_of(n, pods@)).push(profile_of(nodes@[i as int], pods@)));
    }
    assert(nodes@.take(nodes@.len() as int) =~= nodes@);
    profiles
}

fn container_sums_fit(pod: &PodRecord, limit: bool, memory: bool) -> (b: bool)
    ensures
        b == running_sums_fit(container_amounts(*pod, limit, memory)),
{
    let ghost a = container_amounts(*pod, limit, memory);
    proof {
        lemma_total_all(a);
    }
    match &pod.containers {
        None => {
            assert(a =~= Seq::<int>::empty());
            assert forall|k: int| 0 <= k <= a.len() implies i64::MIN <= #[trigger] total(a.take(k)) <= i64::MAX by {
                assert(a.take(k) =~= Seq::<int>::empty());
            }
            true
        },
        Some(cs) => {
            let mut sum: i128 = 0;
            for i in 0..cs.len()
                invariant
                    a == container_amounts(*pod, limit, memory),
                    a.len() == cs@.len(),
                    pod_containers(*pod) == cs@,
                    sum == total(a.take(i as int)),
                    forall|k: int| 0 <= k <= i ==> i64::MIN <= #[trigger] total(a.take(k)) <= i64::MAX,
            {
                proof {
                    lemma_total_step(a, i as int);
                }
                let c = &cs[i];
                let (v, _) = if limit {
                    amount(&c.limits, memory)
                } else {
                    amount(&c.requests, memory)
                };
                assert(v == a[i as int]);
                sum = sum + v as i128;
                if sum < i64::MIN as i128 || sum > i64::MAX as i128 {
                    assert(!(i64::MIN <= total(a.take(i + 1)) <= i64::MAX));
                    return false;
                }
            }
            true
        },
    }
}

fn pod_fits(pod: &PodRecord) -> (b: bool)
    ensures
        b == pod_sums_fit(*pod),
{
    container_sums_fit(pod, false, false) && container_sums_fit(pod, true, false)
        && container_sums_fit(pod, false, true) && container_sums_fit(pod, true, true)
}

fn node_running_sums_fit(pods: &[PodRecord], node: &String, limit: bool, memory: bool) -> (b: bool)
    requires
        forall|i: int| 0 <= i < pods@.len() && active_on(#[trigger] pods@[i], node@) ==> pod_sums_fit(pods@[i]),
    ensures
        b == running_sums_fit(node_amounts(pods@, node@, limit, memory)),
{
    let ghost a = node_amounts(pods@, node@, limit, memory);
    proof {
        lemma_total_all(a);
    }
    let mut sum: i128 = 0;
    for i in 0..pods.len()
        invariant
            a == node_amounts(pods@, node@, limit, memory),
            forall|i: int| 0 <= i < pods@.len() && active_on(#[trigger] pods@[i], node@) ==> pod_sums_fit(pods@[i]),
            sum == total(a.take(i as int)),
            i64::MIN <= sum <= i64::MAX,
            forall|k: int| 0 <= k <= i ==> i64::MIN <= #[trigger] total(a.take(k)) <= i64::MAX,
    {
        proof {
            lemma_total_step(a, i as int);
        }
        let pod = &pods[i];
        let v: i64 = if is_active_on(pod, node) {
            assert(pod_sums_fit(pods@[i as int]));
            let (rc, lc, rm, lm, _) = extract_pod_resources(pod);
            if limit {
                if memory { lm } else { lc }
            } else {
                if memory { rm } else { rc }
            }
        } else {
            0
        };
        assert(v == a[i as int]);
        sum = sum + v as i128;
        if sum < i64::MIN as i128 || sum > i64::MAX as i128 {
            assert(!(i64::MIN <= total(a.take(i + 1)) <= i64::MAX));
            return false;
        }
    }
    true
}

fn node_fits(pods: &[PodRecord], node: &String) -> (b: bool)
    ensures
        b == node_sums_fit(pods@, node@),
{
    for i in 0..pods.len()
        invariant
            forall|j: int| 0 <= j < i && active_on(#[trigger] pods@[j], node@) ==> pod_sums_fit(pods@[j]),
    {
        if is_active_on(&pods[i], node) && !pod_fits(&pods[i]) {
            return false;
        }
    }
    node_running_sums_fit(pods, node, false, false) && node_running_sums_fit(pods, node, true, false)
        && node_running_sums_fit(pods, node, false, true) && node_running_sums_fit(pods, node, true, true)
}

/// Whether `build_profiles` can add up every node's amounts without overflow.
pub fn profiles_computable(nodes: &[NodeRecord], pods: &[PodRecord]) -> (b: bool)
    ensures
        b == profiles_fit(nodes@, pods@),
{
    for i in 0..nodes.len()
        invariant
            forall|j: int| 0 <= j < i ==> node_sums_fit(pods@, #[trigger] nodes@[j].name@),
    {
        if !node_fits(pods, &nodes[i].name) {
            return false;
        }
    }
    true
}

/// Builds node capacity profiles.
pub struct TetrisAnalyzer;

impl TetrisAnalyzer {
    /// See `build_profiles`.
    pub fn build_profiles(nodes: &[NodeRecord], pods: &[PodRecord]) -> (profiles: Vec<NodeTetrisProfile>)
        requires
            profiles_fit(nodes@, pods@),
        ensures
            profiles_view(profiles@) == nodes@.map_values(|n: NodeRecord| profile_of(n, pods@)),
    {
        build_profiles(nodes, pods)
    }
}

} // verus!

verus! {

/// Number of pods active on the node.
pub open spec fn active_count(pods: Seq<PodRecord>, node: Seq<char>) -> nat
    decreases pods.len(),
{
    if pods.len() == 0 {
        0
    } else {
        active_count(pods.drop_last(), node) + if active_on(pods.last(), node) {
            1nat
        } else {
            0nat
        }
    }
}

/// The QoS lists of a node take each pod active on it once, under the pod's own class,
/// and take no other pod: the three lists together are as long as there are active pods.
pub proof fn law_qos_lists_partition_active_pods(pods: Seq<PodRecord>, node: Seq<char>)
    ensures
        class_members(pods, node, QosClass::BestEffort).len() + class_members(pods, node, QosClass::Burstable).len()
            + class_members(pods, node, QosClass::Guaranteed).len() == active_count(pods, node),
        forall|i: int| 0 <= i < pods.len() && active_on(#[trigger] pods[i], node) ==>
            class_members(pods, node, qos_of(pods[i])).contains(pod_ref(pods[i])),
    decreases pods.len(),
{
    if pods.len() > 0 {
        law_qos_lists_partition_active_pods(pods.drop_last(), node);
    }
    assert forall|i: int| 0 <= i < pods.len() && active_on(#[trigger] pods[i], node) implies
        class_members(pods, node, qos_of(pods[i])).contains(pod_ref(pods[i])) by {
        let f = class_member_fn(node, qos_of(pods[i]));
        assert(f(pods[i])[0] == pod_ref(pods[i]));
        crate::seqs::lemma_concat_map_member(pods, f, i, 0);
    }
}

/// A pod is best effort exactly when no container lists requests or limits, and
/// guaranteed exactly when limits are listed and the pod's requests equal its limits
/// for both CPU and memory.
pub proof fn law_qos_classes(pod: PodRecord)
    ensures
        (qos_of(pod) == QosClass::BestEffort) <==> (!any_lists(pod_containers(pod), false)
            && !any_lists(pod_containers(pod), true)),
        (qos_of(pod) == QosClass::Guaranteed) <==> (any_lists(pod_containers(pod), true)
            && pod_amount(pod, false, false) == pod_amount(pod, true, false)
            && pod_amount(pod, false, true) == pod_amount(pod, true, true)),
{
}

/// The container sets at least one amount: a CPU or memory request, or a CPU or
/// memory limit.
pub open spec fn sets_some_amount(c: ContainerResources) -> bool {
    ||| (c.requests matches Some(r) && r.cpu_millis is Some)
    ||| (c.requests matches Some(r) && r.memory_mib is Some)
    ||| (c.limits matches Some(l) && l.cpu_millis is Some)
    ||| (c.limits matches Some(l) && l.memory_mib is Some)
}

/// A pod is best effort exactly when none of its containers sets a CPU or memory
/// request or limit; one container with a memory request alone, or a memory limit
/// alone, already makes it burstable or guaranteed.
pub proof fn law_best_effort_iff_no_amount_set(pod: PodRecord)
    ensures
        (qos_of(pod) == QosClass::BestEffort) <==> (forall|j: int|
            0 <= j < pod_containers(pod).len() ==> !sets_some_amount(#[trigger] pod_containers(pod)[j])),
{
    let cs = pod_containers(pod);
    assert forall|j: int| 0 <= j < cs.len() implies
        (sets_some_amount(#[trigger] cs[j]) <==> (lists_amount(cs[j], false) || lists_amount(cs[j], true))) by {}
    if qos_of(pod) != QosClass::BestEffort {
        if any_lists(cs, false) {
            let j = choose|j: int| 0 <= j < cs.len() && lists_amount(#[trigger] cs[j], false);
            assert(sets_some_amount(cs[j]));
        } else {
            let j = choose|j: int| 0 <= j < cs.len() && lists_amount(#[trigger] cs[j], true);
            assert(sets_some_amount(cs[j]));
        }
    }
}

/// A pod active on the node that has a container setting any CPU or memory amount is
/// listed among the node's burstable or guaranteed pods.
pub proof fn law_pod_with_an_amount_is_not_best_effort(pods: Seq<PodRecord>, node: Seq<char>, i: int, j: int)
    requires
        0 <= i < pods.len(),
        active_on(pods[i], node),
        0 <= j < pod_containers(pods[i]).len(),
        sets_some_amount(pod_containers(pods[i])[j]),
    ensures
        qos_of(pods[i]) != QosClass::BestEffort,
        class_members(pods, node, QosClass::Burstable).contains(pod_ref(pods[i]))
            || class_members(pods, node, QosClass::Guaranteed).contains(pod_ref(pods[i])),
{
    law_best_effort_iff_no_amount_set(pods[i]);
    law_qos_lists_partition_active_pods(pods, node);
}

proof fn lemma_strip_own_suffix(x: Seq<char>, u: Seq<char>)
    ensures
        strip_suffix(x + u, u) == Some(x),
{
    assert((x + u).subrange(x.len() as int, (x + u).len() as int) =~= u);
    assert((x + u).subrange(0, x.len() as int) =~= x);
}

proof fn lemma_strip_other_suffix(s: Seq<char>, v: Seq<char>, t: int)
    requires
        0 <= t < v.len(),
        v.len() <= s.len() ==> s[s.len() - v.len() + t] != v[t],
    ensures
        strip_suffix(s, v) is None,
{
    if v.len() <= s.len() {
        let tail = s.subrange(s.len() - v.len(), s.len() as int);
        assert(tail[t] == s[s.len() - v.len() + t]);
        assert(tail != v);
    }
}

proof fn lemma_digits_value_nonneg(ds: Seq<char>)
    requires
        forall|i: int| 0 <= i < ds.len() ==> is_digit(#[trigger] ds[i]),
    ensures
        digits_value(ds) >= 0,
    decreases ds.len(),
{
    if ds.len() > 0 {
        let t = ds.drop_last();
        assert forall|i: int| 0 <= i < t.len() implies is_digit(#[trigger] t[i]) by {
            assert(t[i] == ds[i]);
        }
        lemma_digits_value_nonneg(t);
        assert(is_digit(ds[ds.len() - 1]));
    }
}

/// The units of quantities, for every whole number `n` written in decimal digits: CPU
/// `<n>m` is `n` millicores and `<n>` is `n` cores; memory `<n>Ki`, `<n>Mi`, `<n>Gi` are
/// `n / 1024`, `n`, `n * 1024` MiB, decimal `<n>M` and `<n>G` are `n * 10^6` and
/// `n * 10^9` bytes, and a bare `<n>` is `n` bytes, all rounded down to whole MiB.
pub proof fn law_quantity_units(ds: Seq<char>)
    requires
        all_digits(ds),
        digits_value(ds) <= 1_000_000_000_000,
    ensures
        cpu_millis(ds + seq!['m']) == Some(digits_value(ds) as i64),
        cpu_millis(ds) == Some((digits_value(ds) * 1000) as i64),
        memory_mib(ds + seq!['K', 'i']) == Some((digits_value(ds) / 1024) as i64),
        memory_mib(ds + seq!['M', 'i']) == Some(digits_value(ds) as i64),
        memory_mib(ds + seq!['G', 'i']) == Some((digits_value(ds) * 1024) as i64),
        memory_mib(ds + seq!['M']) == Some((digits_value(ds) * 1_000_000 / 1_048_576) as i64),
        memory_mib(ds + seq!['G']) == Some((digits_value(ds) * 1_000_000_000 / 1_048_576) as i64),
        memory_mib(ds) == Some((digits_value(ds) / 1_048_576) as i64),
{
    let n = digits_value(ds);
    lemma_digits_value_nonneg(ds);
    assert(is_digit(ds[0]));
    assert(decimal_integer(ds) == Some(n));
    assert(parsed_i64(ds) == Some(n as i64));
    let last = ds[ds.len() - 1];
    assert(is_digit(last));

    let m = seq!['m'];
    lemma_strip_own_suffix(ds, m);
    lemma_strip_other_suffix(ds, m, 0);

    let ki = seq!['K', 'i'];
    let mi = seq!['M', 'i'];
    let gi = seq!['G', 'i'];
    let ti = seq!['T', 'i'];
    let pi = seq!['P', 'i'];
    let ei = seq!['E', 'i'];
    let k = seq!['k'];
    let mm = seq!['M'];
    let g = seq!['G'];
    let t = seq!['T'];
    let p = seq!['P'];
    let e = seq!['E'];

    // `<n>Ki`
    let s_ki = ds + ki;
    lemma_strip_own_suffix(ds, ki);
    assert(memory_split(s_ki) == (ds, 1int, 1024int));
    assert(n * 1int == n);
    assert(div_toward_zero(n * 1int, 1024int) == n / 1024);

    // `<n>Mi`
    let s_mi = ds + mi;
    assert(s_mi[s_mi.len() - 2] == 'M');
    lemma_strip_other_suffix(s_mi, ki, 0);
    lemma_strip_own_suffix(ds, mi);
    assert(memory_split(s_mi) == (ds, 1int, 1int));
    assert(n * 1int == n);
    assert(div_toward_zero(n * 1int, 1int) == n);

    // `<n>Gi`
    let s_gi = ds + gi;
    assert(s_gi[s_gi.len() - 2] == 'G');
    lemma_strip_other_suffix(s_gi, ki, 0);
    lemma_strip_other_suffix(s_gi, mi, 0);
    lemma_strip_own_suffix(ds, gi);
    assert(memory_split(s_gi) == (ds, 1024int, 1int));

    // `<n>M`
    let s_m = ds + mm;
    assert(s_m[s_m.len() - 1] == 'M');
    lemma_strip_other_suffix(s_m, ki, 1);
    lemma_strip_other_suffix(s_m, mi, 1);
    lemma_strip_other_suffix(s_m, gi, 1);
    lemma_strip_other_suffix(s_m, ti, 1);
    lemma_strip_other_suffix(s_m, pi, 1);
    lemma_strip_other_suffix(s_m, ei, 1);
    lemma_strip_other_suffix(s_m, k, 0);
    lemma_strip_own_suffix(ds, mm);
    assert(memory_split(s_m) == (ds, 1000000int, 1048576int));

    // `<n>G`
    let s_g = ds + g;
    assert(s_g[s_g.len() - 1] == 'G');
    lemma_strip_other_suffix(s_g, ki, 1);
    lemma_strip_other_suffix(s_g, mi, 1);
    lemma_strip_other_suffix(s_g, gi, 1);
    lemma_strip_other_suffix(s_g, ti, 1);
    lemma_strip_other_suffix(s_g, pi, 1);
    lemma_strip_other_suffix(s_g, ei, 1);
    lemma_strip_other_suffix(s_g, k, 0);
    lemma_strip_other_suffix(s_g, mm, 0);
    lemma_strip_own_suffix(ds, g);
    assert(memory_split(s_g) == (ds, 1000000000int, 1048576int));

    // `<n>`: no unit
    lemma_strip_other_suffix(ds, ki, 1);
    lemma_strip_other_suffix(ds, mi, 1);
    lemma_strip_other_suffix(ds, gi, 1);
    lemma_strip_other_suffix(ds, ti, 1);
    lemma_strip_other_suffix(ds, pi, 1);
    lemma_strip_other_suffix(ds, ei, 1);
    lemma_strip_other_suffix(ds, k, 0);
    lemma_strip_other_suffix(ds, mm, 0);
    lemma_strip_other_suffix(ds, g, 0);
    lemma_strip_other_suffix(ds, t, 0);
    lemma_strip_other_suffix(ds, p, 0);
    lemma_strip_other_suffix(ds, e, 0);
    assert(memory_split(ds) == (ds, 1int, 1048576int));
}

} // verus!
