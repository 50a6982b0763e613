//! Causal incident timeline: the events of a failed pod and of its node, in time
//! order, and a verdict on the root cause.

use vstd::prelude::*;
use crate::model::{string_or, text_or};
use crate::objects::{ContainerStatus, EventRecord, PodRecord, TerminatedState, Timestamp, no_later};
use crate::seqs::{
    concat_map, first_index, lemma_concat_map_all, lemma_concat_map_empty, lemma_concat_map_step,
    lemma_first_index_bounds, lemma_first_index_empty, lemma_first_index_prefix, lemma_first_index_step,
};
use crate::text::{contains_str, has_prefix, has_substring, int_decimal, int_to_decimal, starts_with_str, str_eq};

verus! {

#[derive(Debug, Clone, Copy, PartialEq, Eq, Structural)]
pub enum IncidentSeverity {
    Info,
    Warning,
    Fatal,
}

/// One event on the incident's timeline.
#[derive(Debug, Clone, PartialEq)]
pub struct TimelineEntry {
    pub timestamp: Timestamp,
    /// `Node: <name>` for node events, else the reporting component.
    pub source: String,
    pub reason: String,
    pub message: String,
    pub severity: IncidentSeverity,
}

pub struct TimelineEntryView {
    pub timestamp: Timestamp,
    pub source: Seq<char>,
    pub reason: Seq<char>,
    pub message: Seq<char>,
    pub severity: IncidentSeverity,
}

impl View for TimelineEntry {
    type V = TimelineEntryView;

    open spec fn view(&self) -> TimelineEntryView {
        TimelineEntryView {
            timestamp: self.timestamp,
            source: self.source@,
            reason: self.reason@,
            message: self.message@,
            severity: self.severity,
        }
    }
}

pub open spec fn entries_view(v: Seq<TimelineEntry>) -> Seq<TimelineEntryView> {
    v.map_values(|e: TimelineEntry| e@)
}

/// The analysis of one failed pod.
#[derive(Debug, Clone, PartialEq)]
pub struct CausalAnalysis {
    pub pod_name: String,
    pub namespace: String,
    pub exit_code: Option<i32>,
    pub root_cause_verdict: String,
    pub is_node_level_failure: bool,
    pub events: Vec<TimelineEntry>,
}

pub struct CausalAnalysisView {
    pub pod_name: Seq<char>,
    pub namespace: Seq<char>,
    pub exit_code: Option<i32>,
    pub root_cause_verdict: Seq<char>,
    pub is_node_level_failure: bool,
    pub events: Seq<TimelineEntryView>,
}

impl View for CausalAnalysis {
    type V = CausalAnalysisView;

    open spec fn view(&self) -> CausalAnalysisView {
        CausalAnalysisView {
            pod_name: self.pod_name@,
            namespace: self.namespace@,
            exit_code: self.exit_code,
            root_cause_verdict: self.root_cause_verdict@,
            is_node_level_failure: self.is_node_level_failure,
            events: entries_view(self.events@),
        }
    }
}

/// The last recorded termination among the containers, the later container winning.
pub open spec fn last_termination(cs: Seq<ContainerStatus>) -> Option<TerminatedState>
    decreases cs.len(),
{
    if cs.len() == 0 {
        None
    } else {
        match cs.last().last_terminated {
            Some(t) => Some(t),
            None => last_termination(cs.drop_last()),
        }
    }
}

pub open spec fn pod_termination(pod: PodRecord) -> Option<TerminatedState> {
    match pod.container_statuses {
        Some(cs) => last_termination(cs@),
        None => None,
    }
}

/// The namespace a pod is analysed in (`default` when it has none).
pub open spec fn pod_namespace(pod: PodRecord) -> Seq<char> {
    text_or(pod.namespace, "default"@)
}

pub open spec fn is_text(o: Option<String>, t: Seq<char>) -> bool {
    match o {
        Some(s) => s@ == t,
        None => false,
    }
}

/// The event concerns the pod itself.
pub open spec fn event_on_pod(ev: EventRecord, pod: PodRecord) -> bool {
    is_text(ev.involved_kind, "Pod"@) && is_text(ev.involved_name, pod.name@) && is_text(
        ev.involved_namespace,
        pod_namespace(pod),
    )
}

/// The event concerns the node the pod runs on.
pub open spec fn event_on_node(ev: EventRecord, pod: PodRecord) -> bool {
    match pod.node_name {
        Some(n) => is_text(ev.involved_kind, "Node"@) && is_text(ev.involved_name, n@),
        None => false,
    }
}

/// When the event happened: its last timestamp, else its event time, else `now`.
pub open spec fn event_moment(ev: EventRecord, now: Timestamp) -> Timestamp {
    match ev.last_timestamp {
        Some(t) => t,
        None => match ev.event_time {
            Some(t) => t,
            None => now,
        },
    }
}

/// Reasons naming OOM, eviction or failure are fatal; other warnings are warnings.
pub open spec fn event_severity(reason: Seq<char>, event_type: Option<String>) -> IncidentSeverity {
    if has_substring(reason, "OOM"@) || has_substring(reason, "Evict"@) || has_substring(reason, "Failed"@) {
        IncidentSeverity::Fatal
    } else if is_text(event_type, "Warning"@) {
        IncidentSeverity::Warning
    } else {
        IncidentSeverity::Info
    }
}

pub open spec fn entry_of(ev: EventRecord, pod: PodRecord, now: Timestamp) -> TimelineEntryView {
    let reason = text_or(ev.reason, "Unknown"@);
    TimelineEntryView {
        timestamp: event_moment(ev, now),
        source: if event_on_node(ev, pod) {
            "Node: "@ + text_or(pod.node_name, Seq::empty())
        } else {
            text_or(ev.source_component, "Kubelet"@)
        },
        reason: reason,
        message: text_or(ev.message, Seq::empty()),
        severity: event_severity(reason, ev.event_type),
    }
}

pub open spec fn pod_event_fn(pod: PodRecord, now: Timestamp) -> spec_fn(EventRecord) -> Seq<TimelineEntryView> {
    |ev: EventRecord|
        if event_on_pod(ev, pod) || event_on_node(ev, pod) {
            seq![entry_of(ev, pod, now)]
        } else {
            Seq::empty()
        }
}

/// The events of the pod and of its node, in the order the cluster listed them.
pub open spec fn correlated_events(pod: PodRecord, events: Seq<EventRecord>, now: Timestamp) -> Seq<TimelineEntryView> {
    concat_map(events, pod_event_fn(pod, now))
}

pub open spec fn later_than_fn(e: TimelineEntryView) -> spec_fn(TimelineEntryView) -> bool {
    |x: TimelineEntryView| !no_later(x.timestamp, e.timestamp)
}

/// Inserts `e` after every entry that is no later than it.
pub open spec fn insert_by_time(s: Seq<TimelineEntryView>, e: TimelineEntryView) -> Seq<TimelineEntryView> {
    match first_index(s, later_than_fn(e)) {
        Some(p) => s.insert(p, e),
        None => s.push(e),
    }
}

/// Stable sort by timestamp (equal timestamps keep their order).
pub open spec fn sort_by_time(s: Seq<TimelineEntryView>) -> Seq<TimelineEntryView>
    decreases s.len(),
{
    if s.len() == 0 {
        s
    } else {
        insert_by_time(sort_by_time(s.drop_last()), s.last())
    }
}

/// A node event reports memory pressure.
pub open spec fn node_memory_pressure(t: Seq<TimelineEntryView>) -> bool {
    exists|i: int| 0 <= i < t.len() && #[trigger] pressure_entry(t[i])
}

pub open spec fn pressure_entry(e: TimelineEntryView) -> bool {
    has_prefix(e.source, "Node"@) && (e.reason == "MemoryPressure"@ || e.reason == "NodeHasMemoryPressure"@)
}

/// Some event is a scheduling failure.
pub open spec fn failed_scheduling(t: Seq<TimelineEntryView>) -> bool {
    exists|i: int| 0 <= i < t.len() && #[trigger] t[i].reason == "FailedScheduling"@
}

/// `Debug` text of an optional exit code.
pub open spec fn exit_code_text(c: Option<i32>) -> Seq<char> {
    match c {
        Some(n) => "Some("@ + int_decimal(n as int) + ")"@,
        None => "None"@,
    }
}

/// Root-cause verdict and whether the node itself failed, from the exit code, the
/// termination reason and the timeline.
pub open spec fn verdict_of(exit_code: Option<i32>, reason: Option<Seq<char>>, t: Seq<TimelineEntryView>) -> (Seq<char>, bool) {
    let oom_killed = reason == Some("OOMKilled"@);
    if exit_code == Some(137i32) && oom_killed && node_memory_pressure(t) {
        ("КРИТИЧЕСКИЙ СБОЙ НОДЫ: Контейнер уничтожен Linux OOM-Killer из-за исчерпания системной памяти всей ноды (Node MemoryPressure). Лимиты пода вторичны."@, true)
    } else if exit_code == Some(137i32) && oom_killed {
        ("CONTAINER LIMIT OOM: Контейнер превысил жесткий лимит memory.limits. Памяти на ноде было достаточно."@, false)
    } else if exit_code == Some(137i32) {
        ("SIGKILL (137): Процесс принудительно убит извне (Liveness Probe timeout или отказ Kubelet Grace Period)."@, false)
    } else if exit_code == Some(143i32) {
        ("SIGTERM (143): Корректное завершение по инициативе Kubelet (Preemption, ручной drain или ротация ноды)."@, false)
    } else if exit_code == Some(1i32) || exit_code == Some(2i32) {
        ("APPLICATION PANIC/CRASH: Внутренний сбой среды выполнения (Uncaught Exception или ранняя паника main-потока)."@, false)
    } else if failed_scheduling(t) {
        ("SCHEDULER BLOCKED: Невозможно разместить под из-за нехватки CPU/Memory Requests или несовпадения Taints/Tolerations."@, false)
    } else {
        ("UNEXPECTED EXIT: Под завершился с кодом "@ + exit_code_text(exit_code), false)
    }
}

/// The analysis of a pod: none for a running pod that never terminated; otherwise its
/// correlated events sorted by time, and the verdict.
pub open spec fn causal_analysis(pod: PodRecord, events: Seq<EventRecord>, now: Timestamp) -> Option<CausalAnalysisView> {
    let term = pod_termination(pod);
    if term is None && is_text(pod.phase, "Running"@) {
        None
    } else {
        let timeline = sort_by_time(correlated_events(pod, events, now));
        let exit_code = match term {
            Some(t) => Some(t.exit_code),
            None => None,
        };
        let reason = match term {
            Some(t) => Some(text_or(t.reason, Seq::empty())),
            None => None,
        };
        let (verdict, node_level) = verdict_of(exit_code, reason, timeline);
        Some(
            CausalAnalysisView {
                pod_name: pod.name@,
                namespace: pod_namespace(pod),
                exit_code: exit_code,
                root_cause_verdict: verdict,
                is_node_level_failure: node_level,
                events: timeline,
            },
        )
    }
}

fn termination_of(pod: &PodRecord) -> (r: Option<&TerminatedState>)
    ensures
        match r {
            Some(t) => pod_termination(*pod) == Some(*t),
            None => pod_termination(*pod) is None,
        },
{
    match &pod.container_statuses {
        None => None,
        Some(cs) => {
            let mut found: Option<&TerminatedState> = None;
            for i in 0..cs.len()
                invariant
                    match found {
                        Some(t) => last_termination(cs@.take(i as int)) == Some(*t),
                        None => last_termination(cs@.take(i as int)) is None,
                    },
            {
                assert(cs@.take(i + 1).drop_last() =~= cs@.take(i as int));
                if let Some(t) = &cs[i].last_terminated {
                    found = Some(t);
                }
            }
            assert(cs@.take(cs@.len() as int) =~= cs@);
            found
        },
    }
}

fn text_is(o: &Option<String>, t: &str) -> (b: bool)
    ensures
        b == is_text(*o, t@),
{
    match o {
        Some(s) => str_eq(s.as_str(), t),
        None => false,
    }
}

fn entry_for(ev: &EventRecord, pod: &PodRecord, on_node: bool, now: Timestamp) -> (e: TimelineEntry)
    requires
        on_node == event_on_node(*ev, *pod),
    ensures
        e@ == entry_of(*ev, *pod, now),
{
    let timestamp = match ev.last_timestamp {
        Some(t) => t,
        None => match ev.event_time {
            Some(t) => t,
            None => now,
        },
    };
    let reason = string_or(&ev.reason, "Unknown");
    let fatal = contains_str(reason.as_str(), "OOM") || contains_str(reason.as_str(), "Evict")
        || contains_str(reason.as_str(), "Failed");
    let severity = if fatal {
        IncidentSeverity::Fatal
    } else if text_is(&ev.event_type, "Warning") {
        IncidentSeverity::Warning
    } else {
        IncidentSeverity::Info
    };
    proof {
        reveal_strlit("");
    }
    let source = if on_node {
        let mut s = String::from_str("Node: ");
        let node = string_or(&pod.node_name, "");
        s.append(node.as_str());
        s
    } else {
        string_or(&ev.source_component, "Kubelet")
    };
    let message = string_or(&ev.message, "");
    assert(message@ == text_or(ev.message, Seq::empty()));
    assert(on_node ==> source@ == "Node: "@ + text_or(pod.node_name, Seq::empty()));
    TimelineEntry { timestamp, source, reason, message, severity }
}

/// Inserts `e` into the timeline after every entry that is no later than it.
fn insert_by_time_exec(timeline: &mut Vec<TimelineEntry>, e: TimelineEntry)
    ensures
        entries_view(final(timeline)@) == insert_by_time(entries_view(old(timeline)@), e@),
{
    let ghost s = entries_view(timeline@);
    let ghost p = later_than_fn(e@);
    proof {
        lemma_first_index_empty(s, p);
    }
    let mut pos: usize = 0;
    let mut found = false;
    while !found && pos < timeline.len()
        invariant
            s == entries_view(timeline@),
            p == later_than_fn(e@),
            pos <= timeline@.len(),
            !found ==> first_index(s.take(pos as int), p) is None,
            found ==> pos < timeline@.len() && first_index(s, p) == Some(pos as int),
        decreases timeline@.len() - pos + (if found { 0int } else { 1int }),
    {
        proof {
            lemma_first_index_step(s, p, pos as int);
        }
        if timeline[pos].timestamp.is_after(&e.timestamp) {
            proof {
                lemma_first_index_prefix(s, p, pos + 1);
            }
            found = true;
        } else {
            pos = pos + 1;
        }
    }
    let ghost ev = e@;
    if found {
        assert(insert_by_time(s, ev) == s.insert(pos as int, ev));
        timeline.insert(pos, e);
        assert(entries_view(timeline@) =~= s.insert(pos as int, ev));
    } else {
        assert(pos == s.len());
        assert(s.take(s.len() as int) =~= s);
        assert(first_index(s, p) is None);
        assert(insert_by_time(s, ev) == s.push(ev));
        timeline.push(e);
        assert(entries_view(timeline@) =~= s.push(ev));
    }
}

fn has_memory_pressure(timeline: &Vec<TimelineEntry>) -> (b: bool)
    ensures
        b == node_memory_pressure(entries_view(timeline@)),
{
    for i in 0..timeline.len()
        invariant
            forall|j: int| 0 <= j < i ==> !pressure_entry(#[trigger] entries_view(timeline@)[j]),
    {
        let e = &timeline[i];
        if starts_with_str(e.source.as_str(), "Node") && (str_eq(e.reason.as_str(), "MemoryPressure")
            || str_eq(e.reason.as_str(), "NodeHasMemoryPressure")) {
            assert(pressure_entry(entries_view(timeline@)[i as int]));
            return true;
        }
    }
    false
}

fn has_failed_scheduling(timeline: &Vec<TimelineEntry>) -> (b: bool)
    ensures
        b == failed_scheduling(entries_view(timeline@)),
{
    for i in 0..timeline.len()
        invariant
            forall|j: int| 0 <= j < i ==> #[trigger] entries_view(timeline@)[j].reason != "FailedScheduling"@,
    {
        if str_eq(timeline[i].reason.as_str(), "FailedScheduling") {
            assert(entries_view(timeline@)[i as int].reason == "FailedScheduling"@);
            return true;
        }
    }
    false
}

fn exit_code_debug(c: Option<i32>) -> (s: String)
    ensures
        s@ == exit_code_text(c),
{
    match c {
        Some(n) => {
            let mut s = String::from_str("Some(");
            let digits = int_to_decimal(n as i64);
            s.append(digits.as_str());
            s.append(")");
            s
        },
        None => String::from_str("None"),
    }
}

fn verdict_for(exit_code: Option<i32>, reason: &Option<String>, timeline: &Vec<TimelineEntry>) -> (r: (String, bool))
    ensures
        (r.0@, r.1) == verdict_of(exit_code, match *reason {
            Some(s) => Some(s@),
            None => None,
        }, entries_view(timeline@)),
{
    let oom_killed = text_is(reason, "OOMKilled");
    let code: i32 = match exit_code {
        Some(c) => c,
        None => 0,
    };
    let has_code = exit_code.is_some();
    if has_code && code == 137 && oom_killed && has_memory_pressure(timeline) {
        (String::from_str("КРИТИЧЕСКИЙ СБОЙ НОДЫ: Контейнер уничтожен Linux OOM-Killer из-за исчерпания системной памяти всей ноды (Node MemoryPressure). Лимиты пода вторичны."), true)
    } else if has_code && code == 137 && oom_killed {
        (String::from_str("CONTAINER LIMIT OOM: Контейнер превысил жесткий лимит memory.limits. Памяти на ноде было достаточно."), false)
    } else if has_code && code == 137 {
        (String::from_str("SIGKILL (137): Процесс принудительно убит извне (Liveness Probe timeout или отказ Kubelet Grace Period)."), false)
    } else if has_code && code == 143 {
        (String::from_str("SIGTERM (143): Корректное завершение по инициативе Kubelet (Preemption, ручной drain или ротация ноды)."), false)
    } else if has_code && (code == 1 || code == 2) {
        (String::from_str("APPLICATION PANIC/CRASH: Внутренний сбой среды выполнения (Uncaught Exception или ранняя паника main-потока)."), false)
    } else if has_failed_scheduling(timeline) {
        (String::from_str("SCHEDULER BLOCKED: Невозможно разместить под из-за нехватки CPU/Memory Requests или несовпадения Taints/Tolerations."), false)
    } else {
        let mut s = String::from_str("UNEXPECTED EXIT: Под завершился с кодом ");
        let code_text = exit_code_debug(exit_code);
        s.append(code_text.as_str());
        (s, false)
    }
}

/// The analysis of a pod at time `now` (the moment given to events that carry no time).
pub fn analyze_pod_at(pod: &PodRecord, cluster_events: &[EventRecord], now: Timestamp) -> (r: Option<CausalAnalysis>)
    ensures
        match r {
            Some(a) => causal_analysis(*pod, cluster_events@, now) == Some(a@),
            None => causal_analysis(*pod, cluster_events@, now) is None,
        },
{
    let pod_name = pod.name.clone();
    let namespace = string_or(&pod.namespace, "default");

    // 1. The last recorded termination of the containers.
    let term = termination_of(pod);
    let exit_code: Option<i32> = match term {
        Some(t) => Some(t.exit_code),
        None => None,
    };
    proof {
        reveal_strlit("");
    }
    let reason: Option<String> = match term {
        Some(t) => Some(string_or(&t.reason, "")),
        None => None,
    };
    if exit_code.is_none() && text_is(&pod.phase, "Running") {
        return None;
    }

    // 2. Events of the pod and of its node, kept in time order.
    let mut timeline: Vec<TimelineEntry> = Vec::new();
    let ghost f = pod_event_fn(*pod, now);
    proof {
        lemma_concat_map_empty(cluster_events@, f);
    }
    for i in 0..cluster_events.len()
        invariant
            f == pod_event_fn(*pod, now),
            namespace@ == pod_namespace(*pod),
            pod_name@ == pod.name@,
            entries_view(timeline@) == sort_by_time(concat_map(cluster_events@.take(i as int), f)),
    {
        let ev = &cluster_events[i];
        let on_pod = text_is(&ev.involved_kind, "Pod") && text_is(&ev.involved_name, pod_name.as_str())
            && text_is(&ev.involved_namespace, namespace.as_str());
        let on_node = match &pod.node_name {
            Some(n) => text_is(&ev.involved_kind, "Node") && text_is(&ev.involved_name, n.as_str()),
            None => false,
        };
        let ghost before = concat_map(cluster_events@.take(i as int), f);
        proof {
            lemma_concat_map_step(cluster_events@, i as int, f);
        }
        if on_pod || on_node {
            let e = entry_for(ev, pod, on_node, now);
            proof {
                let after = concat_map(cluster_events@.take(i + 1), f);
                assert(after =~= before.push(e@));
                assert(after.drop_last() =~= before);
            }
            insert_by_time_exec(&mut timeline, e);
        } else {
            assert(concat_map(cluster_events@.take(i + 1), f) =~= before);
        }
    }
    proof {
        lemma_concat_map_all(cluster_events@, f);
    }

    // 3. The verdict.
    let (verdict, node_level) = verdict_for(exit_code, &reason, &timeline);
    proof {
        let term_spec = pod_termination(*pod);
        assert(exit_code == (match term_spec {
            Some(t) => Some(t.exit_code),
            None => None::<i32>,
        }));
        assert((match reason {
            Some(x) => Some(x@),
            None => None::<Seq<char>>,
        }) == (match term_spec {
            Some(t) => Some(text_or(t.reason, Seq::empty())),
            None => None::<Seq<char>>,
        }));
    }
    Some(CausalAnalysis {
        pod_name,
        namespace,
        exit_code,
        root_cause_verdict: verdict,
        is_node_level_failure: node_level,
        events: timeline,
    })
}

/// Builds incident timelines.
pub struct IncidentTimelineEngine;

impl IncidentTimelineEngine {
    /// The analysis of a pod, events that carry no time placed at `now` (the caller's
    /// reading of the clock; see `analyze_pod_at`).
    pub fn analyze_pod(pod: &PodRecord, cluster_events: &[EventRecord], now: Timestamp) -> (r: Option<CausalAnalysis>)
        ensures
            match r {
                Some(a) => causal_analysis(*pod, cluster_events@, now) == Some(a@),
                None => causal_analysis(*pod, cluster_events@, now) is None,
            },
    {
        analyze_pod_at(pod, cluster_events, now)
    }
}

} // verus!

verus! {

/// The entries are in time order.
pub open spec fn time_ordered(t: Seq<TimelineEntryView>) -> bool {
    forall|i: int, j: int| 0 <= i < j < t.len() ==> no_later(#[trigger] t[i].timestamp, #[trigger] t[j].timestamp)
}

proof fn lemma_insert_by_time(s: Seq<TimelineEntryView>, e: TimelineEntryView)
    requires
        time_ordered(s),
    ensures
        time_ordered(insert_by_time(s, e)),
        insert_by_time(s, e).to_multiset() == s.to_multiset().insert(e),
{
    let p = later_than_fn(e);
    lemma_first_index_bounds(s, p);
    match first_index(s, p) {
        Some(k) => {
            vstd::seq_lib::to_multiset_insert(s, k, e);
            let r = s.insert(k, e);
            assert forall|i: int, j: int| 0 <= i < j < r.len() implies
                no_later(#[trigger] r[i].timestamp, #[trigger] r[j].timestamp) by {
                if j < k {
                    assert(r[i] == s[i] && r[j] == s[j]);
                } else if j == k {
                    assert(r[i] == s[i]);
                    assert(!p(s[i]));
                } else if i < k {
                    assert(r[i] == s[i] && r[j] == s[j - 1]);
                } else if i == k {
                    assert(r[j] == s[j - 1]);
                    assert(p(s[k]));
                    assert(no_later(s[k].timestamp, s[j - 1].timestamp));
                } else {
                    assert(r[i] == s[i - 1] && r[j] == s[j - 1]);
                }
            }
        },
        None => {
            vstd::seq_lib::to_multiset_build(s, e);
            let r = s.push(e);
            assert forall|i: int, j: int| 0 <= i < j < r.len() implies
                no_later(#[trigger] r[i].timestamp, #[trigger] r[j].timestamp) by {
                assert(r[i] == s[i]);
                if j < s.len() {
                    assert(r[j] == s[j]);
                } else {
                    assert(!p(s[i]));
                }
            }
        },
    }
}

/// Sorting by time puts the entries in time order, and neither drops nor adds any.
pub proof fn law_sort_by_time(s: Seq<TimelineEntryView>)
    ensures
        time_ordered(sort_by_time(s)),
        sort_by_time(s).to_multiset() == s.to_multiset(),
    decreases s.len(),
{
    if s.len() == 0 {
    } else {
        let t = s.drop_last();
        law_sort_by_time(t);
        lemma_insert_by_time(sort_by_time(t), s.last());
        vstd::seq_lib::to_multiset_build(t, s.last());
        assert(t.push(s.last()) =~= s);
    }
}

proof fn lemma_pressure_survives_sort(s: Seq<TimelineEntryView>)
    ensures
        node_memory_pressure(sort_by_time(s)) == node_memory_pressure(s),
{
    let t = sort_by_time(s);
    law_sort_by_time(s);
    if node_memory_pressure(s) {
        let i = choose|i: int| 0 <= i < s.len() && #[trigger] pressure_entry(s[i]);
        vstd::seq_lib::to_multiset_contains(s, s[i]);
        vstd::seq_lib::to_multiset_contains(t, s[i]);
        assert(s.contains(s[i]));
        let j = choose|j: int| 0 <= j < t.len() && t[j] == s[i];
        assert(pressure_entry(t[j]));
    }
    if node_memory_pressure(t) {
        let j = choose|j: int| 0 <= j < t.len() && #[trigger] pressure_entry(t[j]);
        vstd::seq_lib::to_multiset_contains(s, t[j]);
        vstd::seq_lib::to_multiset_contains(t, t[j]);
        assert(t.contains(t[j]));
        let i = choose|i: int| 0 <= i < s.len() && s[i] == t[j];
        assert(pressure_entry(s[i]));
    }
}

/// A pod gets an analysis unless it is running and none of its containers ever
/// terminated; its timeline holds exactly its own and its node's events, in time order.
pub proof fn law_analysis_timeline(pod: PodRecord, events: Seq<EventRecord>, now: Timestamp)
    ensures
        causal_analysis(pod, events, now) is None <==> (pod_termination(pod) is None && is_text(pod.phase, "Running"@)),
        causal_analysis(pod, events, now) matches Some(a) ==>
            time_ordered(a.events) && a.events.to_multiset() == correlated_events(pod, events, now).to_multiset(),
{
    law_sort_by_time(correlated_events(pod, events, now));
}

/// The failure is blamed on the node exactly when a container was OOM-killed (exit
/// code 137, reason `OOMKilled`) and an event of the pod's node reported memory pressure.
pub proof fn law_node_level_failure(pod: PodRecord, events: Seq<EventRecord>, now: Timestamp)
    requires
        causal_analysis(pod, events, now) is Some,
    ensures
        causal_analysis(pod, events, now).unwrap().is_node_level_failure <==> (
            pod_termination(pod) matches Some(t) && t.exit_code == 137
                && text_or(t.reason, Seq::empty()) == "OOMKilled"@
                && node_memory_pressure(correlated_events(pod, events, now))),
{
    lemma_pressure_survives_sort(correlated_events(pod, events, now));
}

/// The entries at moment `t`.
pub open spec fn at_moment(t: Timestamp) -> spec_fn(TimelineEntryView) -> bool {
    |e: TimelineEntryView| e.timestamp == t
}

/// Entries that happened at the same moment keep the order in which they were listed.
pub proof fn law_sort_by_time_is_stable(s: Seq<TimelineEntryView>, t: Timestamp)
    ensures
        sort_by_time(s).filter(at_moment(t)) == s.filter(at_moment(t)),
    decreases s.len(),
{
    let pred = at_moment(t);
    if s.len() == 0 {
    } else {
        let rest = s.drop_last();
        let e = s.last();
        let u = sort_by_time(rest);
        law_sort_by_time_is_stable(rest, t);
        law_sort_by_time(rest);
        let later = later_than_fn(e);
        lemma_first_index_bounds(u, later);
        let one = seq![e];
        assert(one.filter(pred) == (if pred(e) { one } else { Seq::<TimelineEntryView>::empty() })) by {
            reveal_with_fuel(Seq::filter, 2);
            assert(one.drop_last() =~= Seq::<TimelineEntryView>::empty());
        }
        assert(s.filter(pred) == (if pred(e) { rest.filter(pred).push(e) } else { rest.filter(pred) })) by {
            reveal(Seq::filter);
        }
        match first_index(u, later) {
            Some(p) => {
                let front = u.take(p);
                let back = u.skip(p);
                assert(u.insert(p, e) =~= front + (one + back));
                assert(u =~= front + back);
                Seq::filter_distributes_over_add(front, one + back, pred);
                Seq::filter_distributes_over_add(one, back, pred);
                Seq::filter_distributes_over_add(front, back, pred);
                if pred(e) {
                    assert forall|i: int| 0 <= i < back.len() implies !pred(#[trigger] back[i]) by {
                        assert(back[i] == u[p + i]);
                        if i > 0 {
                            assert(no_later(u[p].timestamp, u[p + i].timestamp));
                        }
                    }
                    crate::seqs::lemma_filter_none(back, pred);
                    assert(front.filter(pred) + (one + back.filter(pred)) =~= (front.filter(pred) + back.filter(pred)).push(e));
                    assert(front.filter(pred) + back.filter(pred) =~= front.filter(pred));
                } else {
                    assert(front.filter(pred) + (one.filter(pred) + back.filter(pred)) =~= front.filter(pred) + back.filter(pred));
                }
            },
            None => {
                assert(u.push(e) =~= u + one);
                Seq::filter_distributes_over_add(u, one, pred);
                if pred(e) {
                    assert(u.filter(pred) + one =~= u.filter(pred).push(e));
                } else {
                    assert(u.filter(pred) + Seq::<TimelineEntryView>::empty() =~= u.filter(pred));
                }
            },
        }
    }
}

proof fn lemma_last_termination_at(cs: Seq<ContainerStatus>, i: int)
    requires
        0 <= i < cs.len(),
        cs[i].last_terminated is Some,
        forall|j: int| i < j < cs.len() ==> (#[trigger] cs[j]).last_terminated is None,
    ensures
        last_termination(cs) == cs[i].last_terminated,
    decreases cs.len(),
{
    if i < cs.len() - 1 {
        let t = cs.drop_last();
        assert forall|j: int| i < j < t.len() implies (#[trigger] t[j]).last_terminated is None by {
            assert(t[j] == cs[j]);
        }
        assert(t[i] == cs[i]);
        lemma_last_termination_at(t, i);
    }
}

proof fn lemma_no_termination(cs: Seq<ContainerStatus>)
    requires
        forall|j: int| 0 <= j < cs.len() ==> (#[trigger] cs[j]).last_terminated is None,
    ensures
        last_termination(cs) is None,
    decreases cs.len(),
{
    if cs.len() > 0 {
        let t = cs.drop_last();
        assert forall|j: int| 0 <= j < t.len() implies (#[trigger] t[j]).last_terminated is None by {
            assert(t[j] == cs[j]);
        }
        lemma_no_termination(t);
    }
}

/// A pod is analysed by the recorded termination of the last container that has one,
/// whatever containers without one follow: a pod with a terminated container always
/// gets an analysis, with that container's exit code.
pub proof fn law_analysed_by_last_recorded_termination(pod: PodRecord, events: Seq<EventRecord>, now: Timestamp, i: int)
    requires
        pod.container_statuses is Some,
        0 <= i < pod.container_statuses.unwrap()@.len(),
        pod.container_statuses.unwrap()@[i].last_terminated is Some,
        forall|j: int| i < j < pod.container_statuses.unwrap()@.len() ==>
            (#[trigger] pod.container_statuses.unwrap()@[j]).last_terminated is None,
    ensures
        causal_analysis(pod, events, now) is Some,
        causal_analysis(pod, events, now).unwrap().exit_code
            == Some(pod.container_statuses.unwrap()@[i].last_terminated.unwrap().exit_code),
{
    lemma_last_termination_at(pod.container_statuses.unwrap()@, i);
}

/// A running pod none of whose containers recorded a termination gets no analysis.
pub proof fn law_running_pod_without_termination_is_skipped(pod: PodRecord, events: Seq<EventRecord>, now: Timestamp)
    requires
        pod.phase is Some && pod.phase.unwrap()@ == "Running"@,
        pod.container_statuses is Some ==> forall|j: int| 0 <= j < pod.container_statuses.unwrap()@.len() ==>
            (#[trigger] pod.container_statuses.unwrap()@[j]).last_terminated is None,
    ensures
        causal_analysis(pod, events, now) is None,
{
    if let Some(cs) = pod.container_statuses {
        lemma_no_termination(cs@);
    }
}

/// The root-cause verdict for the recorded termination of the last container that has
/// one: exit code 137 with reason `OOMKilled` is a node failure when the pod's node
/// reported memory pressure and the container's own limit otherwise; 137 with another
/// reason is an outside SIGKILL; 143 is a SIGTERM from the kubelet; 1 and 2 are crashes
/// of the application.
pub proof fn law_verdict_by_termination(pod: PodRecord, events: Seq<EventRecord>, now: Timestamp, i: int)
    requires
        pod.container_statuses is Some,
        0 <= i < pod.container_statuses.unwrap()@.len(),
        pod.container_statuses.unwrap()@[i].last_terminated is Some,
        forall|j: int| i < j < pod.container_statuses.unwrap()@.len() ==>
            (#[trigger] pod.container_statuses.unwrap()@[j]).last_terminated is None,
    ensures
        ({
            let t = pod.container_statuses.unwrap()@[i].last_terminated.unwrap();
            let a = causal_analysis(pod, events, now).unwrap();
            let oom = t.reason is Some && t.reason.unwrap()@ == "OOMKilled"@;
            let pressure = node_memory_pressure(correlated_events(pod, events, now));
            &&& (t.exit_code == 137 && oom && pressure) ==> a.root_cause_verdict
                == "КРИТИЧЕСКИЙ СБОЙ НОДЫ: Контейнер уничтожен Linux OOM-Killer из-за исчерпания системной памяти всей ноды (Node MemoryPressure). Лимиты пода вторичны."@
            &&& (t.exit_code == 137 && oom && !pressure) ==> a.root_cause_verdict
                == "CONTAINER LIMIT OOM: Контейнер превысил жесткий лимит memory.limits. Памяти на ноде было достаточно."@
            &&& (t.exit_code == 137 && !oom) ==> a.root_cause_verdict
                == "SIGKILL (137): Процесс принудительно убит извне (Liveness Probe timeout или отказ Kubelet Grace Period)."@
            &&& t.exit_code == 143 ==> a.root_cause_verdict
                == "SIGTERM (143): Корректное завершение по инициативе Kubelet (Preemption, ручной drain или ротация ноды)."@
            &&& (t.exit_code == 1 || t.exit_code == 2) ==> a.root_cause_verdict
                == "APPLICATION PANIC/CRASH: Внутренний сбой среды выполнения (Uncaught Exception или ранняя паника main-потока)."@
        }),
{
    let cs = pod.container_statuses.unwrap()@;
    lemma_last_termination_at(cs, i);
    lemma_pressure_survives_sort(correlated_events(pod, events, now));
    let t = cs[i].last_terminated.unwrap();
    assert(pod_termination(pod) == Some(t));
    if t.reason is None {
        assert(text_or(t.reason, Seq::empty()) != "OOMKilled"@) by {
            assert(Seq::<char>::empty().len() == 0);
            reveal_strlit("OOMKilled");
        }
    }
}

} // verus!
