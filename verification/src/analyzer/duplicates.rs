//! Rules that compete for the same traffic: destination rules of one host, and
//! virtual services bound to the same gateway and host.

use vstd::prelude::*;
use super::{AuditIssue, IssueSeverity, IssueView, issues_view};
use crate::k8s::ClusterSnapshot;
use crate::model::{DestinationRule, VirtualService, clone_strings, string_or, strings_view, text_or};
use crate::seqs::{concat_map, lemma_concat_map_all, lemma_concat_map_empty, lemma_concat_map_step};

verus! {

/// A grouping key with the position of the resource that it belongs to.
pub type Entry = (Seq<char>, Seq<char>, int);

/// The grouping key of an entry.
pub open spec fn key_of(e: Entry) -> (Seq<char>, Seq<char>) {
    (e.0, e.1)
}

/// `0, 1, ..., n - 1`.
pub open spec fn indices(n: nat) -> Seq<int> {
    Seq::new(n, |i: int| i)
}

/// Positions of the entries whose key is `k`, ascending.
pub open spec fn members(es: Seq<Entry>, k: (Seq<char>, Seq<char>)) -> Seq<int>
    decreases es.len(),
{
    if es.len() == 0 {
        Seq::empty()
    } else if key_of(es.last()) == k {
        members(es.drop_last(), k).push(es.len() - 1)
    } else {
        members(es.drop_last(), k)
    }
}

/// No earlier entry has the key of entry `i`.
pub open spec fn is_first(es: Seq<Entry>, i: int) -> bool {
    forall|j: int| 0 <= j < i ==> key_of(es[j]) != key_of(es[i])
}

/// At the first entry of a key that more than one entry has: all entries of that key.
pub open spec fn group_at(es: Seq<Entry>, i: int) -> Seq<int> {
    if is_first(es, i) && members(es, key_of(es[i])).len() > 1 {
        members(es, key_of(es[i]))
    } else {
        Seq::empty()
    }
}

pub open spec fn group_fn(es: Seq<Entry>) -> spec_fn(int) -> Seq<int> {
    |i: int| group_at(es, i)
}

/// Positions of all entries whose key is shared with another entry, grouped by
/// key, the groups in the order in which their keys first occur.
pub open spec fn shared_key_positions(es: Seq<Entry>) -> Seq<int> {
    concat_map(indices(es.len()), group_fn(es))
}

/// The contents of a list of entries.
pub open spec fn entries_view(v: Seq<(String, String, usize)>) -> Seq<Entry> {
    v.map_values(|e: (String, String, usize)| (e.0@, e.1@, e.2 as int))
}

pub open spec fn positions_view(v: Seq<usize>) -> Seq<int> {
    v.map_values(|x: usize| x as int)
}

fn same_key(a: &(String, String, usize), b: &(String, String, usize)) -> (r: bool)
    ensures
        r == ((a.0@, a.1@) == (b.0@, b.1@)),
{
    a.0 == b.0 && a.1 == b.1
}

proof fn lemma_members_step(es: Seq<Entry>, k: (Seq<char>, Seq<char>), j: int)
    requires
        0 <= j < es.len(),
    ensures
        members(es.take(j + 1), k) == (if key_of(es[j]) == k {
            members(es.take(j), k).push(j)
        } else {
            members(es.take(j), k)
        }),
{
    assert(es.take(j + 1).drop_last() =~= es.take(j));
}

/// Positions of the entries whose key another entry shares (see `shared_key_positions`).
fn shared_key_positions_exec(entries: &Vec<(String, String, usize)>) -> (r: Vec<usize>)
    ensures
        positions_view(r@) == shared_key_positions(entries_view(entries@)),
        forall|k: int| 0 <= k < r@.len() ==> r@[k] < entries@.len(),
{
    let n = entries.len();
    let ghost es = entries_view(entries@);
    let ghost f = group_fn(es);
    let mut r: Vec<usize> = Vec::new();
    proof {
        lemma_concat_map_empty(indices(n as nat), f);
    }
    for i in 0..n
        invariant
            n == entries@.len(),
            es == entries_view(entries@),
            f == group_fn(es),
            positions_view(r@) == concat_map(indices(n as nat).take(i as int), f),
            forall|k: int| 0 <= k < r@.len() ==> r@[k] < n,
    {
        let mut first = true;
        for j in 0..i
            invariant
                i < n,
                n == entries@.len(),
                es == entries_view(entries@),
                first == (forall|j2: int| 0 <= j2 < j ==> key_of(es[j2]) != key_of(es[i as int])),
        {
            assert(es[j as int] == (entries@[j as int].0@, entries@[j as int].1@, entries@[j as int].2 as int));
            assert(es[i as int] == (entries@[i as int].0@, entries@[i as int].1@, entries@[i as int].2 as int));
            if same_key(&entries[j], &entries[i]) {
                first = false;
            }
        }
        let ghost k = key_of(es[i as int]);
        let ghost before = r@;
        if first {
            let mut group: Vec<usize> = Vec::new();
            for j in 0..n
                invariant
                    i < n,
                    n == entries@.len(),
                    es == entries_view(entries@),
                    k == key_of(es[i as int]),
                    positions_view(group@) == members(es.take(j as int), k),
                    forall|m: int| 0 <= m < group@.len() ==> group@[m] < n,
            {
                proof {
                    lemma_members_step(es, k, j as int);
                }
                assert(es[j as int] == (entries@[j as int].0@, entries@[j as int].1@, entries@[j as int].2 as int));
                assert(es[i as int] == (entries@[i as int].0@, entries@[i as int].1@, entries@[i as int].2 as int));
                if same_key(&entries[j], &entries[i]) {
                    group.push(j);
                    assert(positions_view(group@) =~= members(es.take(j as int), k).push(j as int));
                }
            }
            assert(es.take(n as int) =~= es);
            if group.len() > 1 {
                let ghost g = group@;
                r.append(&mut group);
                assert(positions_view(r@) =~= positions_view(before) + positions_view(g));
            }
        }
        proof {
            lemma_concat_map_step(indices(n as nat), i as int, f);
            assert(indices(n as nat)[i as int] == i);
            assert(f(i as int) == group_at(es, i as int));
            assert(positions_view(r@) =~= concat_map(indices(n as nat).take(i + 1), f));
        }
    }
    proof {
        lemma_concat_map_all(indices(n as nat), f);
    }
    r
}

/// The entry of a destination rule: its host.
pub open spec fn dr_entries(drs: Seq<DestinationRule>) -> Seq<Entry> {
    Seq::new(drs.len(), |i: int| (drs[i].spec.host@, Seq::<char>::empty(), i))
}

/// The finding for a destination rule whose host another rule also configures.
pub open spec fn dr_conflict_issue(dr: DestinationRule) -> IssueView {
    IssueView {
        kind: "DestinationRule"@,
        resource: dr.metadata.name@,
        namespace: text_or(dr.metadata.namespace, Seq::empty()),
        severity: IssueSeverity::Critical,
        description: "Конфликт DR: несколько манифестов управляют трафиком хоста '"@ + dr.spec.host@
            + "'"@,
    }
}

/// One finding per destination rule whose host is configured by more than one rule.
pub open spec fn dr_conflicts(drs: Seq<DestinationRule>) -> Seq<IssueView> {
    shared_key_positions(dr_entries(drs)).map_values(|i: int| dr_conflict_issue(drs[i]))
}

/// The gateways a virtual service is bound to; `mesh` when it names none.
pub open spec fn vs_gateways(vs: VirtualService) -> Seq<Seq<char>> {
    match vs.spec.gateways {
        Some(g) => strings_view(g@),
        None => seq!["mesh"@],
    }
}

/// The entries of virtual service `i` under gateway `gw`: one per host.
pub open spec fn host_entries(vs: VirtualService, gw: Seq<char>, i: int) -> Seq<Entry> {
    strings_view(vs.spec.hosts@).map_values(|h: Seq<char>| (gw, h, i))
}

pub open spec fn gateway_entries_fn(vs: VirtualService, i: int) -> spec_fn(Seq<char>) -> Seq<Entry> {
    |gw: Seq<char>| host_entries(vs, gw, i)
}

/// The entries in order, each kept at its first occurrence only.
pub open spec fn distinct_entries(s: Seq<Entry>) -> Seq<Entry>
    decreases s.len(),
{
    if s.len() == 0 {
        s
    } else if distinct_entries(s.drop_last()).contains(s.last()) {
        distinct_entries(s.drop_last())
    } else {
        distinct_entries(s.drop_last()).push(s.last())
    }
}

/// Each (gateway, host) pair that virtual service `i` lists, with repetitions.
pub open spec fn listed_pairs(vs: VirtualService, i: int) -> Seq<Entry> {
    concat_map(vs_gateways(vs), gateway_entries_fn(vs, i))
}

/// The entries of virtual service `i`: each (gateway, host) pair that it listens on,
/// once, so that a manifest counts once per pair.
pub open spec fn vs_entries(vs: VirtualService, i: int) -> Seq<Entry> {
    distinct_entries(listed_pairs(vs, i))
}

pub open spec fn vs_entries_fn(vss: Seq<VirtualService>) -> spec_fn(int) -> Seq<Entry> {
    |i: int| vs_entries(vss[i], i)
}

/// The (gateway, host) entries of all virtual services, in order.
pub open spec fn route_entries(vss: Seq<VirtualService>) -> Seq<Entry> {
    concat_map(indices(vss.len()), vs_entries_fn(vss))
}

/// The finding for a virtual service that shares a gateway and host with another.
pub open spec fn route_collision_issue(vs: VirtualService, gw: Seq<char>, host: Seq<char>) -> IssueView {
    IssueView {
        kind: "VirtualService"@,
        resource: vs.metadata.name@,
        namespace: text_or(vs.metadata.namespace, Seq::empty()),
        severity: IssueSeverity::Warning,
        description: "Коллизия маршрута: пересечение для шлюза '"@ + gw + "' и хоста '"@ + host
            + "' между несколькими VS"@,
    }
}

/// One finding per (gateway, host) entry that more than one entry has.
pub open spec fn route_collisions(vss: Seq<VirtualService>) -> Seq<IssueView> {
    let es = route_entries(vss);
    shared_key_positions(es).map_values(|k: int| route_collision_issue(vss[es[k].2], es[k].0, es[k].1))
}

/// All duplicate findings: destination-rule conflicts, then route collisions.
pub open spec fn duplicate_issues(s: ClusterSnapshot) -> Seq<IssueView> {
    dr_conflicts(s.destination_rules@) + route_collisions(s.virtual_services@)
}

fn dr_conflict(dr: &DestinationRule) -> (r: AuditIssue)
    ensures
        r@ == dr_conflict_issue(*dr),
{
    proof {
        reveal_strlit("");
    }
    let mut description = String::from_str("Конфликт DR: несколько манифестов управляют трафиком хоста '");
    description.append(dr.spec.host.as_str());
    description.append("'");
    let kind = String::from_str("DestinationRule");
    let resource = dr.metadata.name.clone();
    let namespace = string_or(&dr.metadata.namespace, "");
    assert(kind@ == "DestinationRule"@);
    assert(resource@ == dr.metadata.name@);
    assert(namespace@ == text_or(dr.metadata.namespace, Seq::empty()));
    assert(description@ == "Конфликт DR: несколько манифестов управляют трафиком хоста '"@ + dr.spec.host@ + "'"@);
    AuditIssue { kind, resource, namespace, severity: IssueSeverity::Critical, description }
}

fn route_collision(vs: &VirtualService, gw: &String, host: &String) -> (r: AuditIssue)
    ensures
        r@ == route_collision_issue(*vs, gw@, host@),
{
    proof {
        reveal_strlit("");
    }
    let mut description = String::from_str("Коллизия маршрута: пересечение для шлюза '");
    description.append(gw.as_str());
    description.append("' и хоста '");
    description.append(host.as_str());
    description.append("' между несколькими VS");
    let kind = String::from_str("VirtualService");
    let resource = vs.metadata.name.clone();
    let namespace = string_or(&vs.metadata.namespace, "");
    assert(namespace@ == text_or(vs.metadata.namespace, Seq::empty()));
    assert(description@ == "Коллизия маршрута: пересечение для шлюза '"@ + gw@ + "' и хоста '"@ + host@
        + "' между несколькими VS"@);
    AuditIssue { kind, resource, namespace, severity: IssueSeverity::Warning, description }
}

/// The gateways of a virtual service (`mesh` when it names none).
fn gateways_of(vs: &VirtualService) -> (r: Vec<String>)
    ensures
        strings_view(r@) == vs_gateways(*vs),
{
    match &vs.spec.gateways {
        Some(g) => clone_strings(g),
        None => {
            let mut v: Vec<String> = Vec::new();
            v.push(String::from_str("mesh"));
            assert(strings_view(v@) =~= seq!["mesh"@]);
            v
        },
    }
}

/// The (gateway, host) pairs that virtual service `i` lists, with repetitions.
fn listed_pairs_exec(vs: &VirtualService, i: usize) -> (r: Vec<(String, String, usize)>)
    ensures
        entries_view(r@) == listed_pairs(*vs, i as int),
{
    let mut r: Vec<(String, String, usize)> = Vec::new();
    let gws = gateways_of(vs);
    let ghost gv = vs_gateways(*vs);
    let ghost fg = gateway_entries_fn(*vs, i as int);
    proof {
        lemma_concat_map_empty(gv, fg);
        assert(entries_view(r@) =~= concat_map(gv.take(0), fg));
    }
    for g in 0..gws.len()
        invariant
            strings_view(gws@) == gv,
            fg == gateway_entries_fn(*vs, i as int),
            entries_view(r@) == concat_map(gv.take(g as int), fg),
    {
        let ghost mid = entries_view(r@);
        let ghost hv = host_entries(*vs, gv[g as int], i as int);
        assert(mid =~= mid + hv.take(0));
        for h in 0..vs.spec.hosts.len()
            invariant
                g < gws@.len(),
                strings_view(gws@) == gv,
                hv == host_entries(*vs, gv[g as int], i as int),
                entries_view(r@) == mid + hv.take(h as int),
        {
            let e = (gws[g].clone(), vs.spec.hosts[h].clone(), i);
            let ghost prev = r@;
            r.push(e);
            proof {
                assert(strings_view(gws@)[g as int] == gws@[g as int]@);
                assert(strings_view(vs.spec.hosts@)[h as int] == vs.spec.hosts@[h as int]@);
                assert(hv[h as int] == (gv[g as int], vs.spec.hosts@[h as int]@, i as int));
                assert(entries_view(r@) =~= entries_view(prev).push(hv[h as int]));
                assert(hv.take(h + 1) =~= hv.take(h as int).push(hv[h as int]));
                assert(entries_view(r@) =~= mid + hv.take(h + 1));
            }
        }
        proof {
            assert(hv.take(hv.len() as int) =~= hv);
            lemma_concat_map_step(gv, g as int, fg);
            assert(entries_view(r@) =~= concat_map(gv.take(g + 1), fg));
        }
    }
    proof {
        lemma_concat_map_all(gv, fg);
    }
    r
}

fn same_entry(a: &(String, String, usize), b: &(String, String, usize)) -> (r: bool)
    ensures
        r == ((a.0@, a.1@, a.2 as int) == (b.0@, b.1@, b.2 as int)),
{
    a.0 == b.0 && a.1 == b.1 && a.2 == b.2
}

/// The entries, each kept at its first occurrence only (see `distinct_entries`).
fn distinct_entries_exec(v: &Vec<(String, String, usize)>) -> (r: Vec<(String, String, usize)>)
    ensures
        entries_view(r@) == distinct_entries(entries_view(v@)),
{
    let ghost ev = entries_view(v@);
    let mut r: Vec<(String, String, usize)> = Vec::new();
    assert(ev.take(0) =~= Seq::<Entry>::empty());
    for i in 0..v.len()
        invariant
            ev == entries_view(v@),
            entries_view(r@) == distinct_entries(ev.take(i as int)),
    {
        let ghost x = ev[i as int];
        assert(x == (v@[i as int].0@, v@[i as int].1@, v@[i as int].2 as int));
        let mut seen = false;
        for j in 0..r.len()
            invariant
                i < v@.len(),
                x == (v@[i as int].0@, v@[i as int].1@, v@[i as int].2 as int),
                seen == (exists|m: int| 0 <= m < j && #[trigger] entries_view(r@)[m] == x),
        {
            assert(entries_view(r@)[j as int] == (r@[j as int].0@, r@[j as int].1@, r@[j as int].2 as int));
            if same_entry(&r[j], &v[i]) {
                seen = true;
            }
        }
        let ghost before = entries_view(r@);
        proof {
            assert(ev.take(i + 1).drop_last() =~= ev.take(i as int));
            assert(ev.take(i + 1).last() == x);
            if seen {
                let m = choose|m: int| 0 <= m < before.len() && #[trigger] before[m] == x;
                assert(before.contains(x));
            }
        }
        if !seen {
            let e = (v[i].0.clone(), v[i].1.clone(), v[i].2);
            r.push(e);
            assert(entries_view(r@) =~= before.push(x));
        }
    }
    assert(ev.take(v@.len() as int) =~= ev);
    r
}

/// The first occurrences repeat nothing and hold exactly the elements of `s`.
proof fn lemma_distinct_entries(s: Seq<Entry>)
    ensures
        distinct_entries(s).no_duplicates(),
        forall|x: Entry| distinct_entries(s).contains(x) <==> s.contains(x),
    decreases s.len(),
{
    broadcast use vstd::seq_lib::lemma_seq_contains_after_push;
    if s.len() > 0 {
        let t = s.drop_last();
        lemma_distinct_entries(t);
        assert(s =~= t.push(s.last()));
        let d = distinct_entries(t);
        if !d.contains(s.last()) {
            let e = d.push(s.last());
            assert forall|a: int, b: int| 0 <= a < b < e.len() implies e[a] != e[b] by {
                if b == e.len() - 1 {
                    assert(d.contains(e[a]));
                }
            }
        }
    }
}

/// Every entry of virtual service `i` carries the position `i`.
proof fn lemma_vs_entries_position(vs: VirtualService, i: int)
    ensures
        forall|x: Entry| #[trigger] vs_entries(vs, i).contains(x) ==> x.2 == i,
{
    let listed = listed_pairs(vs, i);
    lemma_distinct_entries(listed);
    assert forall|x: Entry| #[trigger] vs_entries(vs, i).contains(x) implies x.2 == i by {
        assert(listed.contains(x));
        let gv = vs_gateways(vs);
        let fg = gateway_entries_fn(vs, i);
        crate::seqs::lemma_concat_map_contains(gv, fg, x);
        let (a, b) = choose|a: int, b: int| 0 <= a < gv.len() && 0 <= b < fg(gv[a]).len() && #[trigger] fg(gv[a])[b] == x;
    }
}

fn route_entries_exec(vss: &Vec<VirtualService>) -> (r: Vec<(String, String, usize)>)
    ensures
        entries_view(r@) == route_entries(vss@),
{
    let n = vss.len();
    let ghost fv = vs_entries_fn(vss@);
    let mut r: Vec<(String, String, usize)> = Vec::new();
    proof {
        lemma_concat_map_empty(indices(n as nat), fv);
    }
    for i in 0..n
        invariant
            n == vss@.len(),
            fv == vs_entries_fn(vss@),
            entries_view(r@) == concat_map(indices(n as nat).take(i as int), fv),
    {
        let listed = listed_pairs_exec(&vss[i], i);
        let mut own = distinct_entries_exec(&listed);
        let ghost before = r@;
        let ghost added = own@;
        r.append(&mut own);
        proof {
            assert(entries_view(r@) =~= entries_view(before) + entries_view(added));
            lemma_concat_map_step(indices(n as nat), i as int, fv);
            assert(indices(n as nat)[i as int] == i);
            assert(entries_view(r@) =~= concat_map(indices(n as nat).take(i + 1), fv));
        }
    }
    proof {
        lemma_concat_map_all(indices(n as nat), fv);
    }
    r
}

/// Finds destination rules that configure the same host, and virtual services that
/// listen on the same host of the same gateway.
pub fn detect_duplicates(snapshot: &ClusterSnapshot) -> (issues: Vec<AuditIssue>)
    ensures
        issues_view(issues@) == duplicate_issues(*snapshot),
{
    let drs = &snapshot.destination_rules;
    let mut issues: Vec<AuditIssue> = Vec::new();

    // 1. Destination rules grouped by host.
    let mut dr_keys: Vec<(String, String, usize)> = Vec::new();
    for i in 0..drs.len()
        invariant
            dr_keys@.len() == i,
            entries_view(dr_keys@) == dr_entries(drs@).take(i as int),
    {
        dr_keys.push((drs[i].spec.host.clone(), String::new(), i));
        assert(entries_view(dr_keys@) =~= dr_entries(drs@).take(i + 1));
    }
    assert(dr_entries(drs@).take(drs@.len() as int) =~= dr_entries(drs@));
    let positions = shared_key_positions_exec(&dr_keys);
    let ghost dr_pos = shared_key_positions(dr_entries(drs@));
    for k in 0..positions.len()
        invariant
            positions_view(positions@) == dr_pos,
            dr_pos == shared_key_positions(dr_entries(drs@)),
            forall|m: int| 0 <= m < positions@.len() ==> positions@[m] < drs@.len(),
            issues@.len() == k,
            issues_view(issues@) == dr_pos.take(k as int).map_values(|i: int| dr_conflict_issue(drs@[i])),
    {
        let p = positions[k];
        assert(dr_pos[k as int] == p as int);
        let issue = dr_conflict(&drs[p]);
        let ghost prev = issues@;
        issues.push(issue);
        proof {
            super::lemma_issues_view_push(prev, issue);
        }
        assert(issues_view(issues@) =~= dr_pos.take(k + 1).map_values(|i: int| dr_conflict_issue(drs@[i])));
    }
    assert(dr_pos.take(positions@.len() as int) =~= dr_pos);
    let ghost dr_part = issues_view(issues@);
    assert(issues@.len() == dr_part.len());
    assert(dr_part == dr_conflicts(drs@));

    // 2. Virtual services indexed by (gateway, host).
    let vss = &snapshot.virtual_services;
    let entries = route_entries_exec(vss);
    let positions = shared_key_positions_exec(&entries);
    let ghost es = route_entries(vss@);
    let ghost vs_pos = shared_key_positions(es);
    let ghost fi = |m: int| route_collision_issue(vss@[es[m].2], es[m].0, es[m].1);
    proof {
        assert forall|m: int| 0 <= m < entries@.len() implies #[trigger] entries@[m].2 < vss@.len() by {
            let (a, b) = crate::seqs::lemma_concat_map_index(indices(vss@.len()), vs_entries_fn(vss@), m);
            assert(entries_view(entries@)[m] == es[m]);
            assert(indices(vss@.len())[a] == a);
            lemma_vs_entries_position(vss@[a], a);
            assert(vs_entries(vss@[a], a).contains(es[m]));
        }
    }
    for k in 0..positions.len()
        invariant
            positions_view(positions@) == vs_pos,
            vs_pos == shared_key_positions(es),
            es == route_entries(vss@),
            entries_view(entries@) == es,
            forall|m: int| 0 <= m < positions@.len() ==> positions@[m] < entries@.len(),
            forall|m: int| 0 <= m < entries@.len() ==> #[trigger] entries@[m].2 < vss@.len(),
            fi == (|m: int| route_collision_issue(vss@[es[m].2], es[m].0, es[m].1)),
            issues@.len() == dr_part.len() + k,
            issues_view(issues@) == dr_part + vs_pos.take(k as int).map_values(fi),
    {
        let p = positions[k];
        assert(vs_pos[k as int] == p as int);
        let e = &entries[p];
        let issue = route_collision(&vss[e.2], &e.0, &e.1);
        proof {
            assert(entries_view(entries@)[p as int] == es[p as int]);
        }
        let ghost prev = issues@;
        issues.push(issue);
        proof {
            super::lemma_issues_view_push(prev, issue);
        }
        assert(issues_view(issues@) =~= dr_part + vs_pos.take(k + 1).map_values(fi));
    }
    assert(vs_pos.take(positions@.len() as int) =~= vs_pos);
    assert(vs_pos.map_values(fi) =~= route_collisions(vss@));
    issues
}

} // verus!

verus! {

/// Each position listed by `members(es, k)` holds an entry with key `k`; the
/// positions ascend, and every entry with key `k` is listed.
proof fn lemma_members(es: Seq<Entry>, k: (Seq<char>, Seq<char>))
    ensures
        forall|t: int| 0 <= t < members(es, k).len() ==>
            0 <= #[trigger] members(es, k)[t] < es.len() && key_of(es[members(es, k)[t]]) == k,
        forall|t: int, u: int| 0 <= t < u < members(es, k).len() ==>
            #[trigger] members(es, k)[t] < #[trigger] members(es, k)[u],
        forall|m: int| 0 <= m < es.len() && key_of(es[m]) == k ==> #[trigger] members(es, k).contains(m),
    decreases es.len(),
{
    if es.len() > 0 {
        let t = es.drop_last();
        lemma_members(t, k);
        assert forall|m: int| 0 <= m < t.len() implies #[trigger] t[m] == es[m] by {}
        let ms = members(es, k);
        let mt = members(t, k);
        assert forall|m: int| 0 <= m < es.len() && key_of(es[m]) == k implies #[trigger] ms.contains(m) by {
            if m < t.len() {
                assert(t[m] == es[m]);
                assert(mt.contains(m));
                let p = choose|p: int| 0 <= p < mt.len() && mt[p] == m;
                assert(ms[p] == m);
            } else {
                assert(ms[ms.len() - 1] == m);
            }
        }
    }
}

/// The first entry that has the key of entry `i`.
proof fn lemma_first_of_key(es: Seq<Entry>, i: int) -> (f: int)
    requires
        0 <= i < es.len(),
    ensures
        0 <= f <= i,
        key_of(es[f]) == key_of(es[i]),
        is_first(es, f),
    decreases i,
{
    if is_first(es, i) {
        i
    } else {
        let j = choose|j: int| 0 <= j < i && key_of(es[j]) == key_of(es[i]);
        lemma_first_of_key(es, j)
    }
}

/// An entry is reported exactly when some other entry has the same key.
pub proof fn law_shared_key_reported(es: Seq<Entry>, i: int)
    requires
        0 <= i < es.len(),
    ensures
        shared_key_positions(es).contains(i) <==> exists|j: int|
            0 <= j < es.len() && j != i && #[trigger] key_of(es[j]) == key_of(es[i]),
{
    let n = es.len();
    let k = key_of(es[i]);
    let g = group_fn(es);
    lemma_members(es, k);
    let ms = members(es, k);
    if exists|j: int| 0 <= j < n && j != i && #[trigger] key_of(es[j]) == k {
        let j = choose|j: int| 0 <= j < n && j != i && #[trigger] key_of(es[j]) == k;
        assert(ms.contains(i));
        assert(ms.contains(j));
        let ti = choose|t: int| 0 <= t < ms.len() && ms[t] == i;
        let tj = choose|t: int| 0 <= t < ms.len() && ms[t] == j;
        assert(ms.len() > 1) by {
            if ms.len() <= 1 {
                assert(ti == tj);
            }
        }
        let f = lemma_first_of_key(es, i);
        assert(indices(n)[f] == f);
        assert(g(indices(n)[f]) == ms);
        crate::seqs::lemma_concat_map_member(indices(n), g, f, ti);
    }
    if shared_key_positions(es).contains(i) {
        let p = choose|p: int| 0 <= p < shared_key_positions(es).len() && shared_key_positions(es)[p] == i;
        let (a, b) = crate::seqs::lemma_concat_map_index(indices(n), g, p);
        assert(indices(n)[a] == a);
        let ka = key_of(es[a]);
        lemma_members(es, ka);
        let ma = members(es, ka);
        assert(g(a) == group_at(es, a));
        assert(ma.len() > 1);
        assert(ma[b] == i);
        let other = if b == 0 { 1int } else { 0int };
        let m = ma[other];
        assert(m != i) by {
            if b == 0 {
                assert(ma[b] < ma[other]);
            } else {
                assert(ma[other] < ma[b]);
            }
        }
        assert(key_of(es[m]) == k);
    }
}

/// A destination rule is among the reported ones exactly when another rule
/// configures the same host.
pub proof fn law_dr_conflict_iff_shared_host(drs: Seq<DestinationRule>, i: int)
    requires
        0 <= i < drs.len(),
    ensures
        shared_key_positions(dr_entries(drs)).contains(i) <==> exists|j: int|
            0 <= j < drs.len() && j != i && #[trigger] drs[j].spec.host@ == drs[i].spec.host@,
{
    let es = dr_entries(drs);
    law_shared_key_reported(es, i);
    if exists|j: int| 0 <= j < drs.len() && j != i && #[trigger] drs[j].spec.host@ == drs[i].spec.host@ {
        let j = choose|j: int| 0 <= j < drs.len() && j != i && #[trigger] drs[j].spec.host@ == drs[i].spec.host@;
        assert(key_of(es[j]) == key_of(es[i]));
    }
    if exists|j: int| 0 <= j < es.len() && j != i && #[trigger] key_of(es[j]) == key_of(es[i]) {
        let j = choose|j: int| 0 <= j < es.len() && j != i && #[trigger] key_of(es[j]) == key_of(es[i]);
        assert(drs[j].spec.host@ == drs[i].spec.host@);
    }
}

/// No (gateway, host, virtual service) entry occurs twice.
proof fn lemma_route_entries_distinct(vss: Seq<VirtualService>)
    ensures
        route_entries(vss).no_duplicates(),
{
    let idx = indices(vss.len());
    let f = vs_entries_fn(vss);
    assert forall|i: int| 0 <= i < idx.len() implies (#[trigger] f(idx[i])).no_duplicates() by {
        lemma_distinct_entries(listed_pairs(vss[i], i));
    }
    assert forall|i: int, j: int, x: Entry| #![trigger f(idx[i]).contains(x), f(idx[j]).contains(x)]
        0 <= i < j < idx.len() && f(idx[i]).contains(x) implies !f(idx[j]).contains(x) by {
        lemma_vs_entries_position(vss[i], i);
        lemma_vs_entries_position(vss[j], j);
        assert(idx[i] == i && idx[j] == j);
    }
    crate::seqs::lemma_concat_map_distinct(idx, f);
}

/// A virtual service's listening on a (gateway, host) pair is reported exactly when a
/// different virtual service also listens on that pair: one manifest that lists a
/// pair twice does not collide with itself.
pub proof fn law_route_collision_iff_shared_pair(vss: Seq<VirtualService>, m: int)
    requires
        0 <= m < route_entries(vss).len(),
    ensures
        shared_key_positions(route_entries(vss)).contains(m) <==> exists|j: int|
            0 <= j < route_entries(vss).len() && route_entries(vss)[j].2 != route_entries(vss)[m].2
                && #[trigger] route_entries(vss)[j].0 == route_entries(vss)[m].0
                && route_entries(vss)[j].1 == route_entries(vss)[m].1,
{
    let es = route_entries(vss);
    law_shared_key_reported(es, m);
    lemma_route_entries_distinct(vss);
    if exists|j: int| 0 <= j < es.len() && es[j].2 != es[m].2 && #[trigger] es[j].0 == es[m].0 && es[j].1 == es[m].1 {
        let j = choose|j: int| 0 <= j < es.len() && es[j].2 != es[m].2 && #[trigger] es[j].0 == es[m].0 && es[j].1 == es[m].1;
        assert(key_of(es[j]) == key_of(es[m]));
    }
    if exists|j: int| 0 <= j < es.len() && j != m && #[trigger] key_of(es[j]) == key_of(es[m]) {
        let j = choose|j: int| 0 <= j < es.len() && j != m && #[trigger] key_of(es[j]) == key_of(es[m]);
        assert(es[j] != es[m]);
        assert(es[j].2 != es[m].2);
    }
}

/// No entry is reported twice.
pub proof fn law_each_entry_reported_once(es: Seq<Entry>)
    ensures
        shared_key_positions(es).no_duplicates(),
{
    let n = es.len();
    let g = group_fn(es);
    let idx = indices(n);
    assert forall|i: int| 0 <= i < idx.len() implies (#[trigger] g(idx[i])).no_duplicates() by {
        lemma_members(es, key_of(es[i]));
    }
    assert forall|i: int, j: int, x: int| #![trigger g(idx[i]).contains(x), g(idx[j]).contains(x)]
        0 <= i < j < idx.len() && g(idx[i]).contains(x) implies !g(idx[j]).contains(x) by {
        let ki = key_of(es[i]);
        let kj = key_of(es[j]);
        lemma_members(es, ki);
        lemma_members(es, kj);
        if g(idx[j]).contains(x) {
            assert(is_first(es, j));
            assert(ki != kj);
            let p = choose|p: int| 0 <= p < g(idx[i]).len() && #[trigger] g(idx[i])[p] == x;
            let q = choose|q: int| 0 <= q < g(idx[j]).len() && #[trigger] g(idx[j])[q] == x;
            assert(members(es, ki)[p] == x);
            assert(members(es, kj)[q] == x);
        }
    }
    crate::seqs::lemma_concat_map_distinct(idx, g);
}

/// Virtual service `vs` is bound to gateway `g` (its own list, or `mesh` when it lists
/// none) and lists host `h`, at any position of its hosts.
pub open spec fn binds_pair(vs: VirtualService, g: Seq<char>, h: Seq<char>) -> bool {
    &&& match vs.spec.gateways {
        Some(gs) => exists|y: int| 0 <= y < gs@.len() && #[trigger] gs@[y]@ == g,
        None => g == "mesh"@,
    }
    &&& exists|x: int| 0 <= x < vs.spec.hosts@.len() && #[trigger] vs.spec.hosts@[x]@ == h
}

proof fn lemma_pair_entry(vss: Seq<VirtualService>, a: int, g: Seq<char>, h: Seq<char>) -> (m: int)
    requires
        0 <= a < vss.len(),
        binds_pair(vss[a], g, h),
    ensures
        0 <= m < route_entries(vss).len(),
        route_entries(vss)[m] == (g, h, a),
{
    let vs = vss[a];
    let gv = vs_gateways(vs);
    let fg = gateway_entries_fn(vs, a);
    let y = match vs.spec.gateways {
        Some(gs) => choose|y: int| 0 <= y < gs@.len() && #[trigger] gs@[y]@ == g,
        None => 0int,
    };
    assert(0 <= y < gv.len() && gv[y] == g);
    let x = choose|x: int| 0 <= x < vs.spec.hosts@.len() && #[trigger] vs.spec.hosts@[x]@ == h;
    assert(fg(gv[y])[x] == (g, h, a));
    crate::seqs::lemma_concat_map_member(gv, fg, y, x);
    lemma_distinct_entries(listed_pairs(vs, a));
    let own = vs_entries(vs, a);
    assert(own.contains((g, h, a)));
    let p = choose|p: int| 0 <= p < own.len() && own[p] == (g, h, a);
    let idx = indices(vss.len());
    let fv = vs_entries_fn(vss);
    assert(idx[a] == a);
    assert(fv(idx[a])[p] == (g, h, a));
    crate::seqs::lemma_concat_map_member(idx, fv, a, p);
    let es = route_entries(vss);
    choose|m: int| 0 <= m < es.len() && es[m] == (g, h, a)
}

/// Two different virtual services that are bound to the same gateway and list the same
/// host, at any position of their lists, are both reported as colliding on that pair.
pub proof fn law_different_services_on_one_pair_collide(vss: Seq<VirtualService>, a: int, b: int, g: Seq<char>, h: Seq<char>)
    requires
        0 <= a < vss.len(),
        0 <= b < vss.len(),
        a != b,
        binds_pair(vss[a], g, h),
        binds_pair(vss[b], g, h),
    ensures
        route_collisions(vss).contains(route_collision_issue(vss[a], g, h)),
        route_collisions(vss).contains(route_collision_issue(vss[b], g, h)),
{
    let es = route_entries(vss);
    let ma = lemma_pair_entry(vss, a, g, h);
    let mb = lemma_pair_entry(vss, b, g, h);
    law_route_collision_iff_shared_pair(vss, ma);
    law_route_collision_iff_shared_pair(vss, mb);
    assert(es[mb].2 != es[ma].2 && es[mb].0 == es[ma].0 && es[mb].1 == es[ma].1);
    let shared = shared_key_positions(es);
    assert(shared.contains(ma));
    assert(shared.contains(mb));
    let pa = choose|p: int| 0 <= p < shared.len() && shared[p] == ma;
    let pb = choose|p: int| 0 <= p < shared.len() && shared[p] == mb;
    let rc = route_collisions(vss);
    assert(rc[pa] == route_collision_issue(vss[a], g, h));
    assert(rc[pb] == route_collision_issue(vss[b], g, h));
}

} // verus!
