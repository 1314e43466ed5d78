//! Events of a test run and the filters that select them. Timestamps are
//! nanoseconds since the Unix epoch; durations are nanoseconds.

use vstd::prelude::*;
use crate::text::{views, contains_string, owned, chars_of};
use crate::strmap::StrMap;
use crate::json::JsonValue;

verus! {

/// An event of a test run.
pub enum Event {
    TestLifecycle(TestLifecycleEvent),
    RequestExecution(RequestExecutionEvent),
    AssertionResult(AssertionResultEvent),
    PluginLifecycle(PluginLifecycleEvent),
    SystemMetrics(SystemMetricsEvent),
    Error(ErrorEvent),
}

pub struct TestLifecycleEvent {
    pub event_id: String,
    pub timestamp: i64,
    pub test_suite_id: String,
    pub test_case_id: Option<String>,
    pub lifecycle_type: TestLifecycleType,
    pub metadata: StrMap<String>,
}

#[derive(Clone, Copy, Debug, PartialEq, Eq, Structural)]
pub enum TestLifecycleType {
    SuiteStarted,
    SuiteCompleted,
    SuiteFailed,
    TestCaseStarted,
    TestCaseCompleted,
    TestCaseFailed,
    TestCaseSkipped,
}

pub struct RequestExecutionEvent {
    pub event_id: String,
    pub timestamp: i64,
    pub test_case_id: String,
    pub request_id: String,
    pub execution_type: RequestExecutionType,
    /// How long the request took, in nanoseconds.
    pub duration: Option<u64>,
    pub status_code: Option<u16>,
    pub error_message: Option<String>,
}

#[derive(Clone, Copy, Debug, PartialEq, Eq, Structural)]
pub enum RequestExecutionType {
    Started,
    Completed,
    Failed,
    Timeout,
}

pub struct AssertionResultEvent {
    pub event_id: String,
    pub timestamp: i64,
    pub test_case_id: String,
    pub assertion_type: String,
    pub success: bool,
    pub expected_value: Option<JsonValue>,
    pub actual_value: Option<JsonValue>,
    pub error_message: Option<String>,
}

pub struct PluginLifecycleEvent {
    pub event_id: String,
    pub timestamp: i64,
    pub plugin_name: String,
    pub plugin_version: String,
    pub lifecycle_type: PluginLifecycleType,
    pub error_message: Option<String>,
}

#[derive(Clone, Copy, Debug, PartialEq, Eq, Structural)]
pub enum PluginLifecycleType {
    Loading,
    Loaded,
    Initializing,
    Initialized,
    Unloading,
    Unloaded,
    Failed,
}

/// System measurements. The two rates are carried as the bit patterns of
/// their IEEE-754 double values (`f64::to_bits`), which nothing here reads.
pub struct SystemMetricsEvent {
    pub event_id: String,
    pub timestamp: i64,
    pub cpu_usage_bits: u64,
    pub memory_usage: u64,
    pub active_connections: u32,
    pub request_rate_bits: u64,
}

pub struct ErrorEvent {
    pub event_id: String,
    pub timestamp: i64,
    pub error_type: String,
    pub error_message: String,
    pub context: StrMap<String>,
    pub stack_trace: Option<String>,
}

/// What filtering and routing look at in an event.
pub struct EventMetadata {
    pub event_id: String,
    pub timestamp: i64,
    pub event_type: String,
    pub source: String,
    pub tags: Vec<String>,
}

impl Event {
    /// The event's identifier.
    pub open spec fn id(self) -> Seq<char> {
        match self {
            Event::TestLifecycle(e) => e.event_id@,
            Event::RequestExecution(e) => e.event_id@,
            Event::AssertionResult(e) => e.event_id@,
            Event::PluginLifecycle(e) => e.event_id@,
            Event::SystemMetrics(e) => e.event_id@,
            Event::Error(e) => e.event_id@,
        }
    }

    /// When the event happened.
    pub open spec fn time(self) -> i64 {
        match self {
            Event::TestLifecycle(e) => e.timestamp,
            Event::RequestExecution(e) => e.timestamp,
            Event::AssertionResult(e) => e.timestamp,
            Event::PluginLifecycle(e) => e.timestamp,
            Event::SystemMetrics(e) => e.timestamp,
            Event::Error(e) => e.timestamp,
        }
    }

    /// The event's type name.
    pub open spec fn kind_name(self) -> Seq<char> {
        match self {
            Event::TestLifecycle(_) => "test_lifecycle"@,
            Event::RequestExecution(_) => "request_execution"@,
            Event::AssertionResult(_) => "assertion_result"@,
            Event::PluginLifecycle(_) => "plugin_lifecycle"@,
            Event::SystemMetrics(_) => "system_metrics"@,
            Event::Error(_) => "error"@,
        }
    }

    /// The component that emits events of this kind.
    pub open spec fn source_name(self) -> Seq<char> {
        match self {
            Event::TestLifecycle(_) => "test_engine"@,
            Event::RequestExecution(_) => "protocol_plugin"@,
            Event::AssertionResult(_) => "assertion_engine"@,
            Event::PluginLifecycle(_) => "plugin_manager"@,
            Event::SystemMetrics(_) => "metrics_collector"@,
            Event::Error(_) => "error_handler"@,
        }
    }

    /// The event's tags.
    pub open spec fn tag_names(self) -> Seq<Seq<char>> {
        match self {
            Event::TestLifecycle(_) => seq!["test"@, "lifecycle"@],
            Event::RequestExecution(_) => seq!["request"@, "execution"@],
            Event::AssertionResult(_) => seq!["assertion"@, "validation"@],
            Event::PluginLifecycle(_) => seq!["plugin"@, "lifecycle"@],
            Event::SystemMetrics(_) => seq!["metrics"@, "system"@],
            Event::Error(_) => seq!["error"@, "system"@],
        }
    }

    /// The event's identifier.
    pub fn event_id(&self) -> (r: &String)
        ensures
            r@ == self.id(),
    {
        match self {
            Event::TestLifecycle(e) => &e.event_id,
            Event::RequestExecution(e) => &e.event_id,
            Event::AssertionResult(e) => &e.event_id,
            Event::PluginLifecycle(e) => &e.event_id,
            Event::SystemMetrics(e) => &e.event_id,
            Event::Error(e) => &e.event_id,
        }
    }

    /// When the event happened.
    pub fn timestamp(&self) -> (r: i64)
        ensures
            r == self.time(),
    {
        match self {
            Event::TestLifecycle(e) => e.timestamp,
            Event::RequestExecution(e) => e.timestamp,
            Event::AssertionResult(e) => e.timestamp,
            Event::PluginLifecycle(e) => e.timestamp,
            Event::SystemMetrics(e) => e.timestamp,
            Event::Error(e) => e.timestamp,
        }
    }

    fn event_type(&self) -> (r: String)
        ensures
            r@ == self.kind_name(),
    {
        match self {
            Event::TestLifecycle(_) => owned("test_lifecycle"),
            Event::RequestExecution(_) => owned("request_execution"),
            Event::AssertionResult(_) => owned("assertion_result"),
            Event::PluginLifecycle(_) => owned("plugin_lifecycle"),
            Event::SystemMetrics(_) => owned("system_metrics"),
            Event::Error(_) => owned("error"),
        }
    }

    fn source(&self) -> (r: String)
        ensures
            r@ == self.source_name(),
    {
        match self {
            Event::TestLifecycle(_) => owned("test_engine"),
            Event::RequestExecution(_) => owned("protocol_plugin"),
            Event::AssertionResult(_) => owned("assertion_engine"),
            Event::PluginLifecycle(_) => owned("plugin_manager"),
            Event::SystemMetrics(_) => owned("metrics_collector"),
            Event::Error(_) => owned("error_handler"),
        }
    }

    fn tags(&self) -> (r: Vec<String>)
        ensures
            views(r@) == self.tag_names(),
    {
        let (a, b) = match self {
            Event::TestLifecycle(_) => ("test", "lifecycle"),
            Event::RequestExecution(_) => ("request", "execution"),
            Event::AssertionResult(_) => ("assertion", "validation"),
            Event::PluginLifecycle(_) => ("plugin", "lifecycle"),
            Event::SystemMetrics(_) => ("metrics", "system"),
            Event::Error(_) => ("error", "system"),
        };
        let mut v: Vec<String> = Vec::new();
        v.push(owned(a));
        v.push(owned(b));
        assert(views(v@) =~= self.tag_names());
        v
    }

    /// The event's metadata: identifier, time, type, source and tags.
    pub fn metadata(&self) -> (r: EventMetadata)
        ensures
            r.event_id@ == self.id(),
            r.timestamp == self.time(),
            r.event_type@ == self.kind_name(),
            r.source@ == self.source_name(),
            views(r.tags@) == self.tag_names(),
    {
        EventMetadata {
            event_id: self.event_id().clone(),
            timestamp: self.timestamp(),
            event_type: self.event_type(),
            source: self.source(),
            tags: self.tags(),
        }
    }
}

/// A time window; either end may be open. Both ends are included.
pub struct TimeRange {
    pub start: Option<i64>,
    pub end: Option<i64>,
}

/// Which events a subscriber or a query wants. Each criterion that is set
/// must hold; the custom predicate is kept for callers and not evaluated here.
pub struct EventFilter {
    pub event_types: Option<Vec<String>>,
    pub sources: Option<Vec<String>>,
    pub tags: Option<Vec<String>>,
    pub custom_predicate: Option<String>,
    pub time_range: Option<TimeRange>,
    pub test_suite_ids: Option<Vec<String>>,
    pub test_case_ids: Option<Vec<String>>,
}

/// Whether `s` begins with `p`.
pub open spec fn has_prefix(s: Seq<char>, p: Seq<char>) -> bool {
    p.len() <= s.len() && s.subrange(0, p.len() as int) == p
}

/// Whether `s` begins with one of `ps`.
pub open spec fn has_any_prefix(s: Seq<char>, ps: Seq<Seq<char>>) -> bool {
    exists|i: int| 0 <= i < ps.len() && has_prefix(s, #[trigger] ps[i])
}

/// Whether `a` and `b` share an element.
pub open spec fn shares_any(a: Seq<Seq<char>>, b: Seq<Seq<char>>) -> bool {
    exists|i: int| 0 <= i < a.len() && b.contains(#[trigger] a[i])
}

/// The suite criterion: lifecycle events by suite, request and assertion
/// events by a test case identifier that begins with a listed suite;
/// other events pass.
pub open spec fn suite_matches(ids: Seq<Seq<char>>, e: Event) -> bool {
    match e {
        Event::TestLifecycle(t) => ids.contains(t.test_suite_id@),
        Event::RequestExecution(r) => has_any_prefix(r.test_case_id@, ids),
        Event::AssertionResult(a) => has_any_prefix(a.test_case_id@, ids),
        _ => true,
    }
}

/// The test case criterion: lifecycle events need a listed case (suite-level
/// events have none and fail), request and assertion events a listed case;
/// other events pass.
pub open spec fn case_matches(ids: Seq<Seq<char>>, e: Event) -> bool {
    match e {
        Event::TestLifecycle(t) => match t.test_case_id {
            Some(c) => ids.contains(c@),
            None => false,
        },
        Event::RequestExecution(r) => ids.contains(r.test_case_id@),
        Event::AssertionResult(a) => ids.contains(a.test_case_id@),
        _ => true,
    }
}

/// Whether `f` selects `e`.
pub open spec fn filter_matches(f: EventFilter, e: Event) -> bool {
    &&& (f.event_types matches Some(ts) ==> views(ts@).contains(e.kind_name()))
    &&& (f.sources matches Some(ss) ==> views(ss@).contains(e.source_name()))
    &&& (f.tags matches Some(tg) ==> shares_any(views(tg@), e.tag_names()))
    &&& (f.time_range matches Some(tr) ==> {
        &&& (tr.start matches Some(s) ==> s <= e.time())
        &&& (tr.end matches Some(x) ==> e.time() <= x)
    })
    &&& (f.test_suite_ids matches Some(ids) ==> suite_matches(views(ids@), e))
    &&& (f.test_case_ids matches Some(ids) ==> case_matches(views(ids@), e))
}

/// Criteria law: an event the filter selects meets every criterion the
/// filter sets: its kind is among the kinds, its source among the sources,
/// it shares a tag, and its time lies in the range.
pub proof fn lemma_selected_events_meet_criteria(f: EventFilter, e: Event)
    requires
        filter_matches(f, e),
    ensures
        f.event_types matches Some(ts) ==> views(ts@).contains(e.kind_name()),
        f.sources matches Some(ss) ==> views(ss@).contains(e.source_name()),
        f.tags matches Some(tg) ==> exists|t: Seq<char>| views(tg@).contains(t) && e.tag_names().contains(t),
        f.time_range matches Some(tr) ==> (tr.start matches Some(s) ==> s <= e.time()),
        f.time_range matches Some(tr) ==> (tr.end matches Some(x) ==> e.time() <= x),
{
    if f.tags is Some {
        let tg = f.tags->0;
        assert(shares_any(views(tg@), e.tag_names()));
    }
}

/// Source law: a filter that names sources never selects an event from a
/// source it does not name, whatever its other criteria.
pub proof fn lemma_filter_excludes_other_sources(f: EventFilter, e: Event, ss: Seq<Seq<char>>)
    requires
        f.sources matches Some(v) && views(v@) == ss,
        !ss.contains(e.source_name()),
    ensures
        !filter_matches(f, e),
{
}

/// Whether `s` begins with `p`.
pub fn starts_with(s: &String, p: &String) -> (r: bool)
    ensures
        r == has_prefix(s@, p@),
{
    let sc = chars_of(s.as_str());
    let pc = chars_of(p.as_str());
    if pc.len() > sc.len() {
        return false;
    }
    let mut i: usize = 0;
    while i < pc.len()
        invariant
            i <= pc@.len(),
            pc@.len() <= sc@.len(),
            sc@ == s@,
            pc@ == p@,
            forall|j: int| 0 <= j < i ==> sc@[j] == pc@[j],
        decreases pc.len() - i,
    {
        if sc[i] != pc[i] {
            assert(s@.subrange(0, p@.len() as int)[i as int] != p@[i as int]);
            return false;
        }
        i = i + 1;
    }
    assert(s@.subrange(0, p@.len() as int) =~= p@);
    true
}

fn starts_with_any(s: &String, ps: &Vec<String>) -> (r: bool)
    ensures
        r == has_any_prefix(s@, views(ps@)),
{
    let mut i: usize = 0;
    while i < ps.len()
        invariant
            i <= ps@.len(),
            forall|j: int| 0 <= j < i ==> !has_prefix(s@, #[trigger] views(ps@)[j]),
        decreases ps.len() - i,
    {
        if starts_with(s, &ps[i]) {
            assert(has_prefix(s@, views(ps@)[i as int]));
            return true;
        }
        i = i + 1;
    }
    false
}

fn any_shared(a: &Vec<String>, b: &Vec<String>) -> (r: bool)
    ensures
        r == shares_any(views(a@), views(b@)),
{
    let mut i: usize = 0;
    while i < a.len()
        invariant
            i <= a@.len(),
            forall|j: int| 0 <= j < i ==> !views(b@).contains(#[trigger] views(a@)[j]),
        decreases a.len() - i,
    {
        if contains_string(b, &a[i]) {
            assert(views(b@).contains(views(a@)[i as int]));
            return true;
        }
        i = i + 1;
    }
    false
}

impl EventFilter {
    /// A filter that selects every event.
    pub fn new() -> (r: Self)
        ensures
            r.event_types is None,
            r.sources is None,
            r.tags is None,
            r.custom_predicate is None,
            r.time_range is None,
            r.test_suite_ids is None,
            r.test_case_ids is None,
    {
        EventFilter {
            event_types: None,
            sources: None,
            tags: None,
            custom_predicate: None,
            time_range: None,
            test_suite_ids: None,
            test_case_ids: None,
        }
    }

    /// The filter, restricted to the given event types.
    pub fn with_event_types(self, types: Vec<String>) -> (r: Self)
        ensures
            r == (EventFilter { event_types: Some(types), ..self }),
    {
        EventFilter { event_types: Some(types), ..self }
    }

    /// The filter, restricted to the given sources.
    pub fn with_sources(self, sources: Vec<String>) -> (r: Self)
        ensures
            r == (EventFilter { sources: Some(sources), ..self }),
    {
        EventFilter { sources: Some(sources), ..self }
    }

    /// The filter, restricted to events with at least one of the given tags.
    pub fn with_tags(self, tags: Vec<String>) -> (r: Self)
        ensures
            r == (EventFilter { tags: Some(tags), ..self }),
    {
        EventFilter { tags: Some(tags), ..self }
    }

    /// The filter, carrying a custom predicate for callers to evaluate.
    pub fn with_custom_predicate(self, predicate: String) -> (r: Self)
        ensures
            r == (EventFilter { custom_predicate: Some(predicate), ..self }),
    {
        EventFilter { custom_predicate: Some(predicate), ..self }
    }

    /// The filter, restricted to a time window.
    pub fn with_time_range(self, start: Option<i64>, end: Option<i64>) -> (r: Self)
        ensures
            r == (EventFilter { time_range: Some(TimeRange { start, end }), ..self }),
    {
        EventFilter { time_range: Some(TimeRange { start, end }), ..self }
    }

    /// The filter, restricted to the given test suites.
    pub fn with_test_suite_ids(self, suite_ids: Vec<String>) -> (r: Self)
        ensures
            r == (EventFilter { test_suite_ids: Some(suite_ids), ..self }),
    {
        EventFilter { test_suite_ids: Some(suite_ids), ..self }
    }

    /// The filter, restricted to the given test cases.
    pub fn with_test_case_ids(self, case_ids: Vec<String>) -> (r: Self)
        ensures
            r == (EventFilter { test_case_ids: Some(case_ids), ..self }),
    {
        EventFilter { test_case_ids: Some(case_ids), ..self }
    }

    /// Whether the filter selects `event`.
    pub fn matches(&self, event: &Event) -> (r: bool)
        ensures
            r == filter_matches(*self, *event),
    {
        let metadata = event.metadata();
        if let Some(types) = &self.event_types {
            if !contains_string(types, &metadata.event_type) {
                return false;
            }
        }
        if let Some(sources) = &self.sources {
            if !contains_string(sources, &metadata.source) {
                return false;
            }
        }
        if let Some(filter_tags) = &self.tags {
            if !any_shared(filter_tags, &metadata.tags) {
                return false;
            }
        }
        if let Some(time_range) = &self.time_range {
            if let Some(start) = time_range.start {
                if metadata.timestamp < start {
                    return false;
                }
            }
            if let Some(end) = time_range.end {
                if metadata.timestamp > end {
                    return false;
                }
            }
        }
        if let Some(suite_ids) = &self.test_suite_ids {
            let ok = match event {
                Event::TestLifecycle(t) => contains_string(suite_ids, &t.test_suite_id),
                Event::RequestExecution(q) => starts_with_any(&q.test_case_id, suite_ids),
                Event::AssertionResult(a) => starts_with_any(&a.test_case_id, suite_ids),
                _ => true,
            };
            if !ok {
                return false;
            }
        }
        if let Some(case_ids) = &self.test_case_ids {
            let ok = match event {
                Event::TestLifecycle(t) => match &t.test_case_id {
                    Some(c) => contains_string(case_ids, c),
                    None => false,
                },
                Event::RequestExecution(q) => contains_string(case_ids, &q.test_case_id),
                Event::AssertionResult(a) => contains_string(case_ids, &a.test_case_id),
                _ => true,
            };
            if !ok {
                return false;
            }
        }
        true
    }
}

/// Errors of event delivery and storage.
pub enum EventError {
    ChannelClosed,
    PersistenceError(String),
    SerializationError(String),
    FilterError(String),
}

/// A test lifecycle event with no metadata.
pub fn create_test_lifecycle_event(
    event_id: String,
    timestamp: i64,
    test_suite_id: String,
    test_case_id: Option<String>,
    lifecycle_type: TestLifecycleType,
) -> (r: Event)
    ensures
        r matches Event::TestLifecycle(e) && e.event_id == event_id && e.timestamp == timestamp
            && e.test_suite_id == test_suite_id && e.test_case_id == test_case_id
            && e.lifecycle_type == lifecycle_type && e.metadata@ == Map::<Seq<char>, String>::empty(),
{
    Event::TestLifecycle(TestLifecycleEvent {
        event_id,
        timestamp,
        test_suite_id,
        test_case_id,
        lifecycle_type,
        metadata: StrMap::new(),
    })
}

/// A request execution event.
pub fn create_request_execution_event(
    event_id: String,
    timestamp: i64,
    test_case_id: String,
    request_id: String,
    execution_type: RequestExecutionType,
    duration: Option<u64>,
    status_code: Option<u16>,
    error_message: Option<String>,
) -> (r: Event)
    ensures
        r == Event::RequestExecution(RequestExecutionEvent {
            event_id,
            timestamp,
            test_case_id,
            request_id,
            execution_type,
            duration,
            status_code,
            error_message,
        }),
{
    Event::RequestExecution(RequestExecutionEvent {
        event_id,
        timestamp,
        test_case_id,
        request_id,
        execution_type,
        duration,
        status_code,
        error_message,
    })
}

/// An assertion result event.
pub fn create_assertion_result_event(
    event_id: String,
    timestamp: i64,
    test_case_id: String,
    assertion_type: String,
    success: bool,
    expected_value: Option<JsonValue>,
    actual_value: Option<JsonValue>,
    error_message: Option<String>,
) -> (r: Event)
    ensures
        r == Event::AssertionResult(AssertionResultEvent {
            event_id,
            timestamp,
            test_case_id,
            assertion_type,
            success,
            expected_value,
            actual_value,
            error_message,
        }),
{
    Event::AssertionResult(AssertionResultEvent {
        event_id,
        timestamp,
        test_case_id,
        assertion_type,
        success,
        expected_value,
        actual_value,
        error_message,
    })
}

} // verus!
