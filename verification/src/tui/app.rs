//! Interface state: tabs, input modes, search, namespace scope and selections.

use vstd::prelude::*;
use crate::analyzer::{AuditIssue, IssueSeverity, IssueView, issues_view};
use crate::diagnostics::analyses_view;
use crate::diagnostics::tetris::{NodeTetrisProfile, NodeTetrisProfileView, profiles_view};
use crate::diagnostics::timeline::{CausalAnalysis, CausalAnalysisView};
use crate::diagnostics::webhooks::{WebhookAuditReport, WebhookAuditReportView, reports_view};
use crate::graph::{RouteTrace, RouteTraceView, all_traces, build_traces, traces_view};
use crate::k8s::ClusterSnapshot;
use crate::model::strings_view;
use crate::seqs::{concat_map, lemma_concat_map_all, lemma_concat_map_empty, lemma_concat_map_step};
use crate::text::{contains_str, has_substring, lowercase, pop_char, push_char, to_lowercase};

verus! {

#[derive(PartialEq, Eq, Clone, Copy, Debug, Structural)]
pub enum ActiveTab {
    Duplicates,
    Orphans,
    TrafficGraph,
    IncidentTimeline,
    NodeTetris,
    WebhookAuditor,
}

#[derive(PartialEq, Eq, Clone, Copy, Debug, Structural)]
pub enum InputMode {
    Normal,
    Searching,
    NamespaceSelect,
}

/// A key press, as the interface distinguishes them.
#[derive(PartialEq, Eq, Clone, Copy, Debug, Structural)]
pub enum KeyInput {
    Char(char),
    Enter,
    Esc,
    Backspace,
    Tab,
    BackTab,
    Up,
    Down,
    Other,
}

/// Everything the interface shows and where the user is in it.
pub struct AppState {
    pub active_tab: ActiveTab,
    pub input_mode: InputMode,
    pub duplicates: Vec<AuditIssue>,
    pub orphans: Vec<AuditIssue>,
    pub traces: Vec<RouteTrace>,
    pub selected_trace_index: usize,
    /// Selected row of the table on the active tab.
    pub selected_row: Option<usize>,
    pub should_quit: bool,
    pub search_query: String,
    pub namespaces: Vec<String>,
    pub selected_namespace: Option<String>,
    /// Position in the namespace selector: 0 is every namespace, `i` is `namespaces[i - 1]`.
    pub ns_selector_index: usize,
    pub show_details: bool,
    pub incidents: Vec<CausalAnalysis>,
    pub node_profiles: Vec<NodeTetrisProfile>,
    pub webhook_reports: Vec<WebhookAuditReport>,
    /// Scroll offset of the route card on the traffic graph.
    pub detail_scroll: u16,
}

pub struct AppStateView {
    pub active_tab: ActiveTab,
    pub input_mode: InputMode,
    pub duplicates: Seq<IssueView>,
    pub orphans: Seq<IssueView>,
    pub traces: Seq<RouteTraceView>,
    pub selected_trace_index: usize,
    pub selected_row: Option<usize>,
    pub should_quit: bool,
    pub search_query: Seq<char>,
    pub namespaces: Seq<Seq<char>>,
    pub selected_namespace: Option<Seq<char>>,
    pub ns_selector_index: usize,
    pub show_details: bool,
    pub incidents: Seq<CausalAnalysisView>,
    pub node_profiles: Seq<NodeTetrisProfileView>,
    pub webhook_reports: Seq<WebhookAuditReportView>,
    pub detail_scroll: u16,
}

pub open spec fn opt_text(o: Option<String>) -> Option<Seq<char>> {
    match o {
        Some(s) => Some(s@),
        None => None,
    }
}

impl View for AppState {
    type V = AppStateView;

    open spec fn view(&self) -> AppStateView {
        AppStateView {
            active_tab: self.active_tab,
            input_mode: self.input_mode,
            duplicates: issues_view(self.duplicates@),
            orphans: issues_view(self.orphans@),
            traces: traces_view(self.traces@),
            selected_trace_index: self.selected_trace_index,
            selected_row: self.selected_row,
            should_quit: self.should_quit,
            search_query: self.search_query@,
            namespaces: strings_view(self.namespaces@),
            selected_namespace: opt_text(self.selected_namespace),
            ns_selector_index: self.ns_selector_index,
            show_details: self.show_details,
            incidents: analyses_view(self.incidents@),
            node_profiles: profiles_view(self.node_profiles@),
            webhook_reports: reports_view(self.webhook_reports@),
            detail_scroll: self.detail_scroll,
        }
    }
}

/// An issue is listed when it is in the selected namespace (if any) and, for a non-empty
/// query, its resource, namespace or description contains the query, ignoring case.
pub open spec fn issue_visible(i: IssueView, ns: Option<Seq<char>>, query: Seq<char>) -> bool {
    (match ns {
        Some(n) => i.namespace == n,
        None => true,
    }) && (query.len() == 0 || {
        let q = lowercase(query);
        has_substring(lowercase(i.resource), q) || has_substring(lowercase(i.namespace), q)
            || has_substring(lowercase(i.description), q)
    })
}

pub open spec fn visible_fn(ns: Option<Seq<char>>, query: Seq<char>) -> spec_fn(IssueView) -> Seq<IssueView> {
    |i: IssueView|
        if issue_visible(i, ns, query) {
            seq![i]
        } else {
            Seq::empty()
        }
}

/// The duplicate issues, or the orphan issues.
pub open spec fn issue_source(s: AppStateView, duplicates: bool) -> Seq<IssueView> {
    if duplicates {
        s.duplicates
    } else {
        s.orphans
    }
}

/// The duplicate or orphan issues that the current scope and search let through.
pub open spec fn visible_issues(s: AppStateView, duplicates: bool) -> Seq<IssueView> {
    concat_map(issue_source(s, duplicates), visible_fn(s.selected_namespace, s.search_query))
}

/// Number of rows on the active tab.
pub open spec fn row_count(s: AppStateView) -> nat {
    match s.active_tab {
        ActiveTab::Duplicates => visible_issues(s, true).len(),
        ActiveTab::Orphans => visible_issues(s, false).len(),
        ActiveTab::TrafficGraph => s.traces.len(),
        ActiveTab::IncidentTimeline => s.incidents.len(),
        ActiveTab::NodeTetris => s.node_profiles.len(),
        ActiveTab::WebhookAuditor => s.webhook_reports.len(),
    }
}

/// The tab after `t`, cyclically.
pub open spec fn tab_after(t: ActiveTab) -> ActiveTab {
    match t {
        ActiveTab::Duplicates => ActiveTab::Orphans,
        ActiveTab::Orphans => ActiveTab::TrafficGraph,
        ActiveTab::TrafficGraph => ActiveTab::IncidentTimeline,
        ActiveTab::IncidentTimeline => ActiveTab::NodeTetris,
        ActiveTab::NodeTetris => ActiveTab::WebhookAuditor,
        ActiveTab::WebhookAuditor => ActiveTab::Duplicates,
    }
}

/// The tab before `t`, cyclically.
pub open spec fn tab_before(t: ActiveTab) -> ActiveTab {
    match t {
        ActiveTab::Duplicates => ActiveTab::WebhookAuditor,
        ActiveTab::Orphans => ActiveTab::Duplicates,
        ActiveTab::TrafficGraph => ActiveTab::Orphans,
        ActiveTab::IncidentTimeline => ActiveTab::TrafficGraph,
        ActiveTab::NodeTetris => ActiveTab::IncidentTimeline,
        ActiveTab::WebhookAuditor => ActiveTab::NodeTetris,
    }
}

/// The first row selected when there is one, and the first route.
pub open spec fn reset_view(s: AppStateView) -> AppStateView {
    AppStateView {
        selected_row: if row_count(s) > 0 {
            Some(0usize)
        } else {
            None
        },
        selected_trace_index: 0,
        ..s
    }
}

pub open spec fn next_tab_view(s: AppStateView) -> AppStateView {
    reset_view(AppStateView { active_tab: tab_after(s.active_tab), ..s })
}

pub open spec fn prev_tab_view(s: AppStateView) -> AppStateView {
    reset_view(AppStateView { active_tab: tab_before(s.active_tab), ..s })
}

/// Moves down: in the namespace selector up to the last namespace; on the traffic graph
/// to the next route, wrapping; elsewhere to the next row, wrapping (the first row when
/// none is selected).
pub open spec fn next_item_view(s: AppStateView) -> AppStateView {
    if s.input_mode == InputMode::NamespaceSelect {
        if s.ns_selector_index < s.namespaces.len() {
            AppStateView { ns_selector_index: (s.ns_selector_index + 1) as usize, ..s }
        } else {
            s
        }
    } else if s.active_tab == ActiveTab::TrafficGraph {
        if s.traces.len() > 0 {
            AppStateView { selected_trace_index: ((s.selected_trace_index + 1) % (s.traces.len() as int)) as usize, ..s }
        } else {
            s
        }
    } else if row_count(s) > 0 {
        AppStateView {
            selected_row: Some(
                match s.selected_row {
                    Some(i) => ((i + 1) % (row_count(s) as int)) as usize,
                    None => 0usize,
                },
            ),
            ..s
        }
    } else {
        s
    }
}

/// Moves up, the mirror of `next_item_view` (the selector stops at the first entry).
pub open spec fn previous_item_view(s: AppStateView) -> AppStateView {
    if s.input_mode == InputMode::NamespaceSelect {
        AppStateView {
            ns_selector_index: if s.ns_selector_index > 0 {
                (s.ns_selector_index - 1) as usize
            } else {
                0usize
            },
            ..s
        }
    } else if s.active_tab == ActiveTab::TrafficGraph {
        if s.traces.len() > 0 {
            AppStateView {
                selected_trace_index: ((s.selected_trace_index + s.traces.len() - 1) % (s.traces.len() as int)) as usize,
                ..s
            }
        } else {
            s
        }
    } else if row_count(s) > 0 {
        AppStateView {
            selected_row: Some(
                match s.selected_row {
                    Some(i) => ((i + row_count(s) - 1) % (row_count(s) as int)) as usize,
                    None => 0usize,
                },
            ),
            ..s
        }
    } else {
        s
    }
}

/// Scrolls the route card down (traffic graph only).
pub open spec fn scroll_down_view(s: AppStateView) -> AppStateView {
    if s.active_tab == ActiveTab::TrafficGraph {
        AppStateView {
            detail_scroll: if s.detail_scroll < u16::MAX {
                (s.detail_scroll + 1) as u16
            } else {
                s.detail_scroll
            },
            ..s
        }
    } else {
        s
    }
}

/// Scrolls the route card up (traffic graph only).
pub open spec fn scroll_up_view(s: AppStateView) -> AppStateView {
    if s.active_tab == ActiveTab::TrafficGraph {
        AppStateView {
            detail_scroll: if s.detail_scroll > 0 {
                (s.detail_scroll - 1) as u16
            } else {
                0u16
            },
            ..s
        }
    } else {
        s
    }
}

/// The namespace at the selector's position (none for "all namespaces" or past the end).
pub open spec fn chosen_namespace(s: AppStateView) -> Option<Seq<char>> {
    if s.ns_selector_index == 0 || s.ns_selector_index - 1 >= s.namespaces.len() {
        None
    } else {
        Some(s.namespaces[s.ns_selector_index - 1])
    }
}

pub open spec fn with_tab(s: AppStateView, t: ActiveTab) -> AppStateView {
    reset_view(AppStateView { active_tab: t, ..s })
}

/// The state after a key press: search typing, namespace selection (which rebuilds the
/// traces for the chosen scope), the details overlay, or navigation.
pub open spec fn key_view(s: AppStateView, key: KeyInput, snapshot: ClusterSnapshot) -> AppStateView {
    if s.input_mode == InputMode::Searching {
        match key {
            KeyInput::Esc => reset_view(AppStateView { search_query: Seq::empty(), input_mode: InputMode::Normal, ..s }),
            KeyInput::Enter => reset_view(AppStateView { input_mode: InputMode::Normal, ..s }),
            KeyInput::Backspace => reset_view(AppStateView {
                search_query: if s.search_query.len() > 0 {
                    s.search_query.drop_last()
                } else {
                    s.search_query
                },
                ..s
            }),
            KeyInput::Char(c) => reset_view(AppStateView { search_query: s.search_query.push(c), ..s }),
            _ => s,
        }
    } else if s.input_mode == InputMode::NamespaceSelect {
        match key {
            KeyInput::Esc => AppStateView { input_mode: InputMode::Normal, ..s },
            KeyInput::Down => next_item_view(s),
            KeyInput::Up => previous_item_view(s),
            KeyInput::Char(c) => if c == 'j' {
                next_item_view(s)
            } else if c == 'k' {
                previous_item_view(s)
            } else {
                s
            },
            KeyInput::Enter => {
                let ns = chosen_namespace(s);
                reset_view(AppStateView {
                    selected_namespace: ns,
                    traces: all_traces(snapshot, ns),
                    input_mode: InputMode::Normal,
                    ..s
                })
            },
            _ => s,
        }
    } else if s.show_details {
        match key {
            KeyInput::Esc => AppStateView { show_details: false, ..s },
            KeyInput::Enter => AppStateView { show_details: false, ..s },
            KeyInput::Char(c) => if c == 'q' {
                AppStateView { show_details: false, ..s }
            } else {
                s
            },
            _ => s,
        }
    } else {
        match key {
            KeyInput::Enter => if s.active_tab == ActiveTab::Duplicates || s.active_tab == ActiveTab::Orphans {
                AppStateView { show_details: true, ..s }
            } else {
                s
            },
            KeyInput::Tab => next_tab_view(s),
            KeyInput::BackTab => prev_tab_view(s),
            KeyInput::Down => next_item_view(s),
            KeyInput::Up => previous_item_view(s),
            KeyInput::Char(c) => if c == 'q' {
                AppStateView { should_quit: true, ..s }
            } else if c == '/' {
                AppStateView { input_mode: InputMode::Searching, ..s }
            } else if c == 'n' {
                AppStateView { input_mode: InputMode::NamespaceSelect, ..s }
            } else if c == '1' {
                with_tab(s, ActiveTab::Duplicates)
            } else if c == '2' {
                with_tab(s, ActiveTab::Orphans)
            } else if c == '3' {
                with_tab(s, ActiveTab::TrafficGraph)
            } else if c == '4' {
                with_tab(s, ActiveTab::IncidentTimeline)
            } else if c == '5' {
                with_tab(s, ActiveTab::NodeTetris)
            } else if c == '6' {
                with_tab(s, ActiveTab::WebhookAuditor)
            } else if c == 'j' {
                next_item_view(s)
            } else if c == 'k' {
                previous_item_view(s)
            } else if c == 'd' {
                scroll_down_view(s)
            } else if c == 'u' {
                scroll_up_view(s)
            } else {
                s
            },
            _ => s,
        }
    }
}

/// Whether the (lower-cased) query occurs in the (lower-cased) resource, namespace or
/// description of an issue.
pub fn search_hit(resource: &str, namespace: &str, description: &str, query: &str) -> (b: bool)
    ensures
        b == (has_substring(resource@, query@) || has_substring(namespace@, query@)
            || has_substring(description@, query@)),
{
    contains_str(resource, query) || contains_str(namespace, query) || contains_str(description, query)
}

impl AppState {
    /// A fresh state on the duplicates tab, its first row selected when it has one.
    pub fn new(
        duplicates: Vec<AuditIssue>,
        orphans: Vec<AuditIssue>,
        traces: Vec<RouteTrace>,
        namespaces: Vec<String>,
        incidents: Vec<CausalAnalysis>,
        node_profiles: Vec<NodeTetrisProfile>,
        webhook_reports: Vec<WebhookAuditReport>,
    ) -> (s: AppState)
        ensures
            s.duplicates == duplicates,
            s.orphans == orphans,
            s.traces == traces,
            s.namespaces == namespaces,
            s.incidents == incidents,
            s.node_profiles == node_profiles,
            s.webhook_reports == webhook_reports,
            s.active_tab == ActiveTab::Duplicates,
            s.input_mode == InputMode::Normal,
            s.selected_row == (if duplicates@.len() > 0 {
                Some(0usize)
            } else {
                None
            }),
            s.selected_trace_index == 0,
            !s.should_quit,
            s.search_query@.len() == 0,
            s.selected_namespace is None,
            s.ns_selector_index == 0,
            !s.show_details,
            s.detail_scroll == 0,
    {
        let selected_row = if duplicates.len() > 0 {
            Some(0)
        } else {
            None
        };
        AppState {
            active_tab: ActiveTab::Duplicates,
            input_mode: InputMode::Normal,
            duplicates,
            orphans,
            traces,
            selected_trace_index: 0,
            selected_row,
            should_quit: false,
            search_query: String::new(),
            namespaces,
            selected_namespace: None,
            ns_selector_index: 0,
            show_details: false,
            incidents,
            node_profiles,
            webhook_reports,
            detail_scroll: 0,
        }
    }

    /// The duplicate (or orphan) issues that the scope and the search let through.
    pub fn filtered_issues(&self, is_duplicates: bool) -> (r: Vec<&AuditIssue>)
        ensures
            r@.map_values(|i: &AuditIssue| i@) == visible_issues(self@, is_duplicates),
    {
        let source = if is_duplicates {
            &self.duplicates
        } else {
            &self.orphans
        };
        let ghost f = visible_fn(self@.selected_namespace, self@.search_query);
        let query_empty = self.search_query.as_str().is_empty();
        let q = to_lowercase(self.search_query.as_str());
        let mut r: Vec<&AuditIssue> = Vec::new();
        proof {
            lemma_concat_map_empty(issues_view(source@), f);
            assert(r@.map_values(|i: &AuditIssue| i@) =~= Seq::<IssueView>::empty());
        }
        for k in 0..source.len()
            invariant
                f == visible_fn(self@.selected_namespace, self@.search_query),
                query_empty == (self.search_query@.len() == 0),
                q@ == lowercase(self.search_query@),
                r@.map_values(|i: &AuditIssue| i@) == concat_map(issues_view(source@).take(k as int), f),
        {
            let issue = &source[k];
            let in_scope = match &self.selected_namespace {
                Some(ns) => issue.namespace == *ns,
                None => true,
            };
            let mut keep = in_scope;
            if in_scope && !query_empty {
                let resource = to_lowercase(issue.resource.as_str());
                let namespace = to_lowercase(issue.namespace.as_str());
                let description = to_lowercase(issue.description.as_str());
                keep = search_hit(resource.as_str(), namespace.as_str(), description.as_str(), q.as_str());
            }
            let ghost prev = r@;
            proof {
                lemma_concat_map_step(issues_view(source@), k as int, f);
                assert(issues_view(source@)[k as int] == issue@);
                assert(keep == issue_visible(issue@, self@.selected_namespace, self@.search_query));
            }
            if keep {
                r.push(issue);
                assert(r@.map_values(|i: &AuditIssue| i@) =~= prev.map_values(|i: &AuditIssue| i@).push(issue@));
            }
            assert(r@.map_values(|i: &AuditIssue| i@) =~= concat_map(issues_view(source@).take(k + 1), f));
        }
        proof {
            lemma_concat_map_all(issues_view(source@), f);
        }
        r
    }

    /// Number of rows on the active tab.
    pub fn row_count(&self) -> (n: usize)
        ensures
            n == row_count(self@),
    {
        match self.active_tab {
            ActiveTab::Duplicates => self.filtered_issues(true).len(),
            ActiveTab::Orphans => self.filtered_issues(false).len(),
            ActiveTab::TrafficGraph => self.traces.len(),
            ActiveTab::IncidentTimeline => self.incidents.len(),
            ActiveTab::NodeTetris => self.node_profiles.len(),
            ActiveTab::WebhookAuditor => self.webhook_reports.len(),
        }
    }

    /// Selects the first row (if any) and the first route.
    pub fn reset_selection(&mut self)
        ensures
            final(self)@ == reset_view(old(self)@),
    {
        let count = self.row_count();
        if count > 0 {
            self.selected_row = Some(0);
        } else {
            self.selected_row = None;
        }
        self.selected_trace_index = 0;
    }

    /// Switches to the next tab, cyclically.
    pub fn next_tab(&mut self)
        ensures
            final(self)@ == next_tab_view(old(self)@),
    {
        self.active_tab = match self.active_tab {
            ActiveTab::Duplicates => ActiveTab::Orphans,
            ActiveTab::Orphans => ActiveTab::TrafficGraph,
            ActiveTab::TrafficGraph => ActiveTab::IncidentTimeline,
            ActiveTab::IncidentTimeline => ActiveTab::NodeTetris,
            ActiveTab::NodeTetris => ActiveTab::WebhookAuditor,
            ActiveTab::WebhookAuditor => ActiveTab::Duplicates,
        };
        self.reset_selection();
    }

    /// Switches to the previous tab, cyclically.
    pub fn prev_tab(&mut self)
        ensures
            final(self)@ == prev_tab_view(old(self)@),
    {
        self.active_tab = match self.active_tab {
            ActiveTab::Duplicates => ActiveTab::WebhookAuditor,
            ActiveTab::Orphans => ActiveTab::Duplicates,
            ActiveTab::TrafficGraph => ActiveTab::Orphans,
            ActiveTab::IncidentTimeline => ActiveTab::TrafficGraph,
            ActiveTab::NodeTetris => ActiveTab::IncidentTimeline,
            ActiveTab::WebhookAuditor => ActiveTab::NodeTetris,
        };
        self.reset_selection();
    }

    /// Moves the cursor down (see `next_item_view`).
    pub fn next_item(&mut self)
        ensures
            final(self)@ == next_item_view(old(self)@),
    {
        if self.input_mode == InputMode::NamespaceSelect {
            if self.ns_selector_index < self.namespaces.len() {
                self.ns_selector_index = self.ns_selector_index + 1;
            }
            return;
        }
        if self.active_tab == ActiveTab::TrafficGraph {
            if self.traces.len() > 0 {
                let next = (self.selected_trace_index as u128 + 1) % (self.traces.len() as u128);
                self.selected_trace_index = next as usize;
            }
            return;
        }
        let count = self.row_count();
        if count > 0 {
            let i = match self.selected_row {
                Some(i) => ((i as u128 + 1) % (count as u128)) as usize,
                None => 0,
            };
            self.selected_row = Some(i);
        }
    }

    /// Moves the cursor up (see `previous_item_view`).
    pub fn previous_item(&mut self)
        ensures
            final(self)@ == previous_item_view(old(self)@),
    {
        if self.input_mode == InputMode::NamespaceSelect {
            self.ns_selector_index = if self.ns_selector_index > 0 {
                self.ns_selector_index - 1
            } else {
                0
            };
            return;
        }
        if self.active_tab == ActiveTab::TrafficGraph {
            if self.traces.len() > 0 {
                let len = self.traces.len() as u128;
                let prev = (self.selected_trace_index as u128 + len - 1) % len;
                self.selected_trace_index = prev as usize;
            }
            return;
        }
        let count = self.row_count();
        if count > 0 {
            let c = count as u128;
            let i = match self.selected_row {
                Some(i) => ((i as u128 + c - 1) % c) as usize,
                None => 0,
            };
            self.selected_row = Some(i);
        }
    }
}


impl AppState {
    /// Scrolls the route card down on the traffic graph.
    pub fn scroll_detail_down(&mut self)
        ensures
            final(self)@ == scroll_down_view(old(self)@),
    {
        if self.active_tab == ActiveTab::TrafficGraph && self.detail_scroll < u16::MAX {
            self.detail_scroll = self.detail_scroll + 1;
        }
    }

    /// Scrolls the route card up on the traffic graph.
    pub fn scroll_detail_up(&mut self)
        ensures
            final(self)@ == scroll_up_view(old(self)@),
    {
        if self.active_tab == ActiveTab::TrafficGraph && self.detail_scroll > 0 {
            self.detail_scroll = self.detail_scroll - 1;
        }
    }

    fn switch_to(&mut self, t: ActiveTab)
        ensures
            final(self)@ == with_tab(old(self)@, t),
    {
        self.active_tab = t;
        self.reset_selection();
    }

    /// Applies one key press (see `key_view`); `snapshot` is what the traces are
    /// rebuilt from when a namespace is chosen.
    pub fn handle_key(&mut self, key: KeyInput, snapshot: &ClusterSnapshot)
        ensures
            final(self)@ == key_view(old(self)@, key, *snapshot),
    {
        if self.input_mode == InputMode::Searching {
            match key {
                KeyInput::Esc => {
                    self.search_query = String::new();
                    self.input_mode = InputMode::Normal;
                    self.reset_selection();
                },
                KeyInput::Enter => {
                    self.input_mode = InputMode::Normal;
                    self.reset_selection();
                },
                KeyInput::Backspace => {
                    pop_char(&mut self.search_query);
                    self.reset_selection();
                },
                KeyInput::Char(c) => {
                    push_char(&mut self.search_query, c);
                    self.reset_selection();
                },
                _ => {},
            }
            return;
        }
        if self.input_mode == InputMode::NamespaceSelect {
            match key {
                KeyInput::Esc => {
                    self.input_mode = InputMode::Normal;
                },
                KeyInput::Down => self.next_item(),
                KeyInput::Up => self.previous_item(),
                KeyInput::Char(c) => {
                    if c == 'j' {
                        self.next_item();
                    } else if c == 'k' {
                        self.previous_item();
                    }
                },
                KeyInput::Enter => {
                    let idx = self.ns_selector_index;
                    self.selected_namespace = if idx == 0 || idx - 1 >= self.namespaces.len() {
                        None
                    } else {
                        Some(self.namespaces[idx - 1].clone())
                    };
                    let traces = match &self.selected_namespace {
                        Some(ns) => build_traces(snapshot, Some(ns.as_str())),
                        None => build_traces(snapshot, None),
                    };
                    self.traces = traces;
                    self.input_mode = InputMode::Normal;
                    self.reset_selection();
                },
                _ => {},
            }
            return;
        }
        if self.show_details {
            match key {
                KeyInput::Esc | KeyInput::Enter => {
                    self.show_details = false;
                },
                KeyInput::Char(c) => {
                    if c == 'q' {
                        self.show_details = false;
                    }
                },
                _ => {},
            }
            return;
        }
        match key {
            KeyInput::Enter => {
                if self.active_tab == ActiveTab::Duplicates || self.active_tab == ActiveTab::Orphans {
                    self.show_details = true;
                }
            },
            KeyInput::Tab => self.next_tab(),
            KeyInput::BackTab => self.prev_tab(),
            KeyInput::Down => self.next_item(),
            KeyInput::Up => self.previous_item(),
            KeyInput::Char(c) => {
                if c == 'q' {
                    self.should_quit = true;
                } else if c == '/' {
                    self.input_mode = InputMode::Searching;
                } else if c == 'n' {
                    self.input_mode = InputMode::NamespaceSelect;
                } else if c == '1' {
                    self.switch_to(ActiveTab::Duplicates);
                } else if c == '2' {
                    self.switch_to(ActiveTab::Orphans);
                } else if c == '3' {
                    self.switch_to(ActiveTab::TrafficGraph);
                } else if c == '4' {
                    self.switch_to(ActiveTab::IncidentTimeline);
                } else if c == '5' {
                    self.switch_to(ActiveTab::NodeTetris);
                } else if c == '6' {
                    self.switch_to(ActiveTab::WebhookAuditor);
                } else if c == 'j' {
                    self.next_item();
                } else if c == 'k' {
                    self.previous_item();
                } else if c == 'd' {
                    self.scroll_detail_down();
                } else if c == 'u' {
                    self.scroll_detail_up();
                }
            },
            _ => {},
        }
    }
}

} // verus!

verus! {

/// Stepping to the next tab and back, or back and forth, returns to the same tab;
/// six steps forward come back to the start.
pub proof fn law_tab_cycle(t: ActiveTab)
    ensures
        tab_before(tab_after(t)) == t,
        tab_after(tab_before(t)) == t,
        tab_after(tab_after(tab_after(tab_after(tab_after(tab_after(t)))))) == t,
{
}

/// With no namespace scope and no search, every issue is listed.
pub proof fn law_unfiltered_lists_everything(s: AppStateView, duplicates: bool)
    requires
        s.selected_namespace is None,
        s.search_query.len() == 0,
    ensures
        visible_issues(s, duplicates) == issue_source(s, duplicates),
{
    let src = issue_source(s, duplicates);
    lemma_all_visible(src, visible_fn(s.selected_namespace, s.search_query));
}

proof fn lemma_all_visible(src: Seq<IssueView>, f: spec_fn(IssueView) -> Seq<IssueView>)
    requires
        forall|i: IssueView| #[trigger] f(i) == seq![i],
    ensures
        concat_map(src, f) == src,
    decreases src.len(),
{
    if src.len() > 0 {
        lemma_all_visible(src.drop_last(), f);
        assert(src.drop_last().push(src.last()) =~= src);
        assert(concat_map(src.drop_last(), f) + f(src.last()) =~= src);
    }
}

/// Under a namespace scope only issues of that namespace are listed, and under a search
/// only issues whose resource, namespace or description contains it, ignoring case; the
/// listed issues are exactly the issues that pass both.
pub proof fn law_visible_issues_exact(s: AppStateView, duplicates: bool)
    ensures
        forall|k: int| 0 <= k < visible_issues(s, duplicates).len() ==>
            issue_visible(#[trigger] visible_issues(s, duplicates)[k], s.selected_namespace, s.search_query),
        forall|i: int| 0 <= i < issue_source(s, duplicates).len()
            && issue_visible(issue_source(s, duplicates)[i], s.selected_namespace, s.search_query)
            ==> #[trigger] visible_issues(s, duplicates).contains(issue_source(s, duplicates)[i]),
{
    let src = issue_source(s, duplicates);
    let f = visible_fn(s.selected_namespace, s.search_query);
    let v = visible_issues(s, duplicates);
    assert forall|k: int| 0 <= k < v.len() implies issue_visible(#[trigger] v[k], s.selected_namespace, s.search_query) by {
        let (i, j) = crate::seqs::lemma_concat_map_index(src, f, k);
        assert(f(src[i]).len() > 0);
    }
    assert forall|i: int| 0 <= i < src.len() && issue_visible(src[i], s.selected_namespace, s.search_query)
        implies #[trigger] v.contains(src[i]) by {
        assert(f(src[i])[0] == src[i]);
        crate::seqs::lemma_concat_map_member(src, f, i, 0);
    }
}

/// The selection points at a listed row, at a listed route when there are routes (the
/// first otherwise), and the namespace selector at a listed entry.
pub open spec fn selection_in_range(s: AppStateView) -> bool {
    &&& (s.selected_row matches Some(i) ==> i < row_count(s))
    &&& (if s.traces.len() > 0 {
        s.selected_trace_index < s.traces.len()
    } else {
        s.selected_trace_index == 0
    })
    &&& s.ns_selector_index <= s.namespaces.len()
}

/// A fresh state, as `AppState::new` builds it, has its selection in range.
pub proof fn law_fresh_state_selection_in_range(s: AppStateView)
    requires
        s.active_tab == ActiveTab::Duplicates,
        s.selected_namespace is None,
        s.search_query.len() == 0,
        s.selected_row == (if s.duplicates.len() > 0 {
            Some(0usize)
        } else {
            None
        }),
        s.selected_trace_index == 0,
        s.ns_selector_index == 0,
    ensures
        selection_in_range(s),
{
    law_unfiltered_lists_everything(s, true);
}

proof fn lemma_wrap_steps(i: int, n: int)
    requires
        0 <= i < n,
    ensures
        (i + 1) % n == (if i + 1 < n { i + 1 } else { 0 }),
        (i + n - 1) % n == (if i > 0 { i - 1 } else { n - 1 }),
{
    if i + 1 < n {
        vstd::arithmetic::div_mod::lemma_small_mod((i + 1) as nat, n as nat);
    } else {
        vstd::arithmetic::div_mod::lemma_mod_self_0(n);
    }
    if i > 0 {
        assert((i + n - 1) % n == i - 1) by (nonlinear_arith)
            requires
                0 < i < n,
        {
            vstd::arithmetic::div_mod::lemma_fundamental_div_mod(i + n - 1, n);
            vstd::arithmetic::div_mod::lemma_mod_bound(i + n - 1, n);
        }
    } else {
        vstd::arithmetic::div_mod::lemma_small_mod((n - 1) as nat, n as nat);
    }
}

proof fn lemma_reset_in_range(s: AppStateView)
    requires
        s.ns_selector_index <= s.namespaces.len(),
    ensures
        selection_in_range(reset_view(s)),
        row_count(reset_view(s)) == row_count(s),
{
}

proof fn lemma_moves_in_range(s: AppStateView)
    requires
        selection_in_range(s),
    ensures
        selection_in_range(next_item_view(s)),
        selection_in_range(previous_item_view(s)),
        selection_in_range(scroll_down_view(s)),
        selection_in_range(scroll_up_view(s)),
{
    let n = s.traces.len() as int;
    if n > 0 {
        lemma_wrap_steps(s.selected_trace_index as int, n);
    }
    let r = row_count(s) as int;
    if let Some(i) = s.selected_row {
        lemma_wrap_steps(i as int, r);
    }
    assert(row_count(next_item_view(s)) == row_count(s));
    assert(row_count(previous_item_view(s)) == row_count(s));
}

/// Every key press keeps the selection in range.
pub proof fn law_key_keeps_selection_in_range(s: AppStateView, key: KeyInput, snapshot: ClusterSnapshot)
    requires
        selection_in_range(s),
    ensures
        selection_in_range(key_view(s, key, snapshot)),
{
    lemma_moves_in_range(s);
    let t = key_view(s, key, snapshot);
    if s.input_mode == InputMode::Searching {
        match key {
            KeyInput::Esc => lemma_reset_in_range(AppStateView { search_query: Seq::empty(), input_mode: InputMode::Normal, ..s }),
            KeyInput::Enter => lemma_reset_in_range(AppStateView { input_mode: InputMode::Normal, ..s }),
            KeyInput::Backspace => lemma_reset_in_range(AppStateView {
                search_query: if s.search_query.len() > 0 {
                    s.search_query.drop_last()
                } else {
                    s.search_query
                },
                ..s
            }),
            KeyInput::Char(c) => lemma_reset_in_range(AppStateView { search_query: s.search_query.push(c), ..s }),
            _ => {},
        }
    } else if s.input_mode == InputMode::NamespaceSelect {
        if key == KeyInput::Enter {
            let ns = chosen_namespace(s);
            lemma_reset_in_range(AppStateView {
                selected_namespace: ns,
                traces: all_traces(snapshot, ns),
                input_mode: InputMode::Normal,
                ..s
            });
        }
    } else if !s.show_details {
        match key {
            KeyInput::Tab => lemma_reset_in_range(AppStateView { active_tab: tab_after(s.active_tab), ..s }),
            KeyInput::BackTab => lemma_reset_in_range(AppStateView { active_tab: tab_before(s.active_tab), ..s }),
            KeyInput::Char(c) => {
                if c == '1' {
                    lemma_reset_in_range(AppStateView { active_tab: ActiveTab::Duplicates, ..s });
                } else if c == '2' {
                    lemma_reset_in_range(AppStateView { active_tab: ActiveTab::Orphans, ..s });
                } else if c == '3' {
                    lemma_reset_in_range(AppStateView { active_tab: ActiveTab::TrafficGraph, ..s });
                } else if c == '4' {
                    lemma_reset_in_range(AppStateView { active_tab: ActiveTab::IncidentTimeline, ..s });
                } else if c == '5' {
                    lemma_reset_in_range(AppStateView { active_tab: ActiveTab::NodeTetris, ..s });
                } else if c == '6' {
                    lemma_reset_in_range(AppStateView { active_tab: ActiveTab::WebhookAuditor, ..s });
                }
            },
            _ => {},
        }
    }
}

/// The lists of the state are as long as a `Vec` can be.
pub open spec fn lengths_fit(s: AppStateView) -> bool {
    &&& s.duplicates.len() <= usize::MAX
    &&& s.orphans.len() <= usize::MAX
    &&& s.traces.len() <= usize::MAX
    &&& s.namespaces.len() <= usize::MAX
    &&& s.incidents.len() <= usize::MAX
    &&& s.node_profiles.len() <= usize::MAX
    &&& s.webhook_reports.len() <= usize::MAX
}

proof fn lemma_visible_len(src: Seq<IssueView>, f: spec_fn(IssueView) -> Seq<IssueView>)
    requires
        forall|i: IssueView| (#[trigger] f(i)).len() <= 1,
    ensures
        concat_map(src, f).len() <= src.len(),
    decreases src.len(),
{
    if src.len() > 0 {
        lemma_visible_len(src.drop_last(), f);
        assert(f(src.last()).len() <= 1);
    }
}

proof fn lemma_row_count_fits(s: AppStateView)
    requires
        lengths_fit(s),
    ensures
        row_count(s) <= usize::MAX,
{
    let f = visible_fn(s.selected_namespace, s.search_query);
    assert forall|i: IssueView| (#[trigger] f(i)).len() <= 1 by {}
    lemma_visible_len(s.duplicates, f);
    lemma_visible_len(s.orphans, f);
}

/// Moving down and then up leaves the selection where it was (for a selected row, for
/// the routes of the traffic graph, and in the namespace selector short of its last entry).
pub proof fn law_next_then_previous_restores(s: AppStateView)
    requires
        lengths_fit(s),
        selection_in_range(s),
        s.input_mode == InputMode::NamespaceSelect ==> s.ns_selector_index < s.namespaces.len(),
        s.input_mode != InputMode::NamespaceSelect && s.active_tab != ActiveTab::TrafficGraph
            ==> s.selected_row is Some,
    ensures
        previous_item_view(next_item_view(s)) == s,
{
    lemma_row_count_fits(s);
    let n = s.traces.len() as int;
    if n > 0 {
        lemma_wrap_steps(s.selected_trace_index as int, n);
        let j = (s.selected_trace_index + 1) % n;
        lemma_wrap_steps(j, n);
    }
    if let Some(i) = s.selected_row {
        let r = row_count(s) as int;
        lemma_wrap_steps(i as int, r);
        let j = (i + 1) % r;
        lemma_wrap_steps(j, r);
        assert(row_count(next_item_view(s)) == row_count(s));
    }
    if s.input_mode == InputMode::NamespaceSelect {
        assert(previous_item_view(next_item_view(s)) == s);
    } else if s.active_tab == ActiveTab::TrafficGraph {
        if n > 0 {
            let x = s.selected_trace_index as int;
            let t = next_item_view(s);
            assert(t.selected_trace_index as int == (x + 1) % n);
            assert(t.traces == s.traces);
            let u = previous_item_view(t);
            assert(u.selected_trace_index as int == x);
            assert(u == s);
        }
    } else {
        let i = s.selected_row.unwrap() as int;
        let r = row_count(s) as int;
        let t = next_item_view(s);
        assert(t.selected_row == Some(((i + 1) % r) as usize));
        let u = previous_item_view(t);
        assert(u.selected_row == Some(i as usize));
        assert(u == s);
    }
}

} // verus!
