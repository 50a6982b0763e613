//! Configuration audit: duplicate routing rules and orphaned resources.

pub mod duplicates;
pub mod orphans;

use vstd::prelude::*;
use crate::k8s::ClusterSnapshot;

verus! {

#[derive(Debug, Clone, Copy, PartialEq, Eq, Structural)]
pub enum IssueSeverity {
    Warning,
    Critical,
}

/// One finding of the audit.
#[derive(Debug, Clone, PartialEq)]
pub struct AuditIssue {
    pub kind: String,
    pub resource: String,
    pub namespace: String,
    pub severity: IssueSeverity,
    pub description: String,
}

/// The contents of an `AuditIssue`.
pub struct IssueView {
    pub kind: Seq<char>,
    pub resource: Seq<char>,
    pub namespace: Seq<char>,
    pub severity: IssueSeverity,
    pub description: Seq<char>,
}

impl View for AuditIssue {
    type V = IssueView;

    open spec fn view(&self) -> IssueView {
        IssueView {
            kind: self.kind@,
            resource: self.resource@,
            namespace: self.namespace@,
            severity: self.severity,
            description: self.description@,
        }
    }
}

/// The contents of each issue.
pub open spec fn issues_view(v: Seq<AuditIssue>) -> Seq<IssueView> {
    v.map_values(|i: AuditIssue| i@)
}

pub proof fn lemma_issues_view_push(v: Seq<AuditIssue>, x: AuditIssue)
    ensures
        issues_view(v.push(x)) == issues_view(v).push(x@),
{
    assert(issues_view(v.push(x)) =~= issues_view(v).push(x@));
}

/// Runs the audits over one snapshot.
pub struct Analyzer<'a> {
    snapshot: &'a ClusterSnapshot,
}

impl<'a> Analyzer<'a> {
    pub closed spec fn snapshot(&self) -> ClusterSnapshot {
        *self.snapshot
    }

    pub fn new(snapshot: &'a ClusterSnapshot) -> (a: Self)
        ensures
            a.snapshot() == *snapshot,
    {
        Analyzer { snapshot }
    }

    /// The duplicate findings and the orphan findings of the snapshot.
    pub fn run_all(&self) -> (r: (Vec<AuditIssue>, Vec<AuditIssue>))
        ensures
            issues_view(r.0@) == duplicates::duplicate_issues(self.snapshot()),
            issues_view(r.1@) == orphans::orphan_issues(self.snapshot()),
    {
        (duplicates::detect_duplicates(self.snapshot), orphans::detect_orphans(self.snapshot))
    }
}

} // verus!
