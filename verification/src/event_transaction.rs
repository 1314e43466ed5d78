//! Transactions over events: events gathered while a transaction is active,
//! published together on commit, or undone on rollback. The transactions in
//! flight are kept by identifier; handlers and publishing are run by the
//! caller between the steps given here.

use vstd::prelude::*;
use crate::text::{views, owned, concat, concat3, copy_string};
use crate::strmap::StrMap;
use crate::event::{Event, EventError, TestLifecycleEvent, TestLifecycleType};
use crate::auth_plugin::opt_view;

verus! {

/// Where a transaction stands.
#[derive(Clone, Copy, Debug, PartialEq, Eq, Structural)]
pub enum TransactionState {
    Active,
    Committed,
    RolledBack,
    Failed,
}

/// Events gathered for atomic processing. `started_at` is in nanoseconds
/// since the Unix epoch.
pub struct EventTransaction {
    pub transaction_id: String,
    pub started_at: i64,
    pub state: TransactionState,
    pub events: Vec<Event>,
    pub rollback_events: Vec<Event>,
    pub metadata: StrMap<String>,
}

impl EventTransaction {
    /// An active transaction with no events.
    pub fn new(transaction_id: String, started_at: i64) -> (r: Self)
        ensures
            r.transaction_id == transaction_id,
            r.started_at == started_at,
            r.state == TransactionState::Active,
            r.events@.len() == 0,
            r.rollback_events@.len() == 0,
            r.metadata@ == Map::<Seq<char>, String>::empty(),
    {
        EventTransaction {
            transaction_id,
            started_at,
            state: TransactionState::Active,
            events: Vec::new(),
            rollback_events: Vec::new(),
            metadata: StrMap::new(),
        }
    }

    /// The transaction with a metadata entry set.
    pub fn with_metadata(self, key: String, value: String) -> (r: Self)
        ensures
            r.metadata@ == self.metadata@.insert(key@, value),
            r.transaction_id == self.transaction_id,
            r.started_at == self.started_at,
            r.state == self.state,
            r.events == self.events,
            r.rollback_events == self.rollback_events,
    {
        let mut t = self;
        t.metadata.insert(key, value);
        t
    }

    /// Adds an event, while the transaction is active.
    pub fn add_event(&mut self, event: Event)
        ensures
            final(self).events@ == if old(self).state == TransactionState::Active {
                old(self).events@.push(event)
            } else {
                old(self).events@
            },
            final(self).rollback_events == old(self).rollback_events,
            final(self).state == old(self).state,
            final(self).transaction_id == old(self).transaction_id,
            final(self).started_at == old(self).started_at,
            final(self).metadata == old(self).metadata,
    {
        if self.is_active() {
            self.events.push(event);
        }
    }

    /// Adds an event to publish if the transaction is rolled back, while it is active.
    pub fn add_rollback_event(&mut self, event: Event)
        ensures
            final(self).rollback_events@ == if old(self).state == TransactionState::Active {
                old(self).rollback_events@.push(event)
            } else {
                old(self).rollback_events@
            },
            final(self).events == old(self).events,
            final(self).state == old(self).state,
            final(self).transaction_id == old(self).transaction_id,
            final(self).started_at == old(self).started_at,
            final(self).metadata == old(self).metadata,
    {
        if self.is_active() {
            self.rollback_events.push(event);
        }
    }

    /// Whether the transaction is active.
    pub fn is_active(&self) -> (r: bool)
        ensures
            r == (self.state == TransactionState::Active),
    {
        match self.state {
            TransactionState::Active => true,
            _ => false,
        }
    }
}

/// Message for an unknown transaction.
pub open spec fn not_found_message(id: Seq<char>) -> Seq<char> {
    "Transaction "@ + id + " not found"@
}

/// Message for a transaction that is no longer active.
pub open spec fn not_active_message(id: Seq<char>) -> Seq<char> {
    "Transaction "@ + id + " is not active"@
}

/// Whether `r` is the filter error with message `m`.
pub open spec fn is_filter_error(r: EventError, m: Seq<char>) -> bool {
    r matches EventError::FilterError(s) && s@ == m
}

/// Whether a transaction started before `cutoff` and is still active.
pub open spec fn is_stale(t: EventTransaction, cutoff: int) -> bool {
    t.started_at < cutoff && t.state == TransactionState::Active
}

/// Text of `parts` joined with `sep` between them.
pub open spec fn joined(parts: Seq<Seq<char>>, sep: Seq<char>) -> Seq<char>
    decreases parts.len(),
{
    if parts.len() == 0 {
        Seq::empty()
    } else if parts.len() == 1 {
        parts[0]
    } else {
        joined(parts.drop_last(), sep) + sep + parts.last()
    }
}

/// `parts` joined with `sep` between them.
pub fn join_with(parts: &Vec<String>, sep: &str) -> (r: String)
    ensures
        r@ == joined(views(parts@), sep@),
{
    let mut out = owned("");
    proof { reveal_strlit(""); }
    let mut i: usize = 0;
    while i < parts.len()
        invariant
            i <= parts@.len(),
            out@ == joined(views(parts@).take(i as int), sep@),
        decreases parts.len() - i,
    {
        proof {
            let t = views(parts@).take(i + 1);
            assert(t.drop_last() =~= views(parts@).take(i as int));
            assert(t.last() == parts@[i as int]@);
            if i == 0 {
                assert(views(parts@).take(0) =~= Seq::<Seq<char>>::empty());
                assert(t.len() == 1);
            }
        }
        if i == 0 {
            out = copy_string(&parts[i]);
        } else {
            out.append(sep);
            out.append(parts[i].as_str());
        }
        i = i + 1;
    }
    assert(views(parts@).take(parts@.len() as int) =~= views(parts@));
    out
}

/// The transactions in flight, by identifier.
pub struct EventTransactionManager {
    active_transactions: StrMap<EventTransaction>,
}

impl EventTransactionManager {
    /// The transactions in flight.
    pub closed spec fn transactions(&self) -> Map<Seq<char>, EventTransaction> {
        self.active_transactions@
    }

    /// A manager with no transactions.
    pub fn new() -> (r: Self)
        ensures
            r.transactions() == Map::<Seq<char>, EventTransaction>::empty(),
    {
        EventTransactionManager { active_transactions: StrMap::new() }
    }

    /// Starts a transaction under `transaction_id`, begun at `started_at`,
    /// and gives back its identifier.
    pub fn begin_transaction(&mut self, transaction_id: String, started_at: i64) -> (r: String)
        ensures
            r@ == transaction_id@,
            final(self).transactions().dom() == old(self).transactions().dom().insert(transaction_id@),
            forall|k: Seq<char>| k != transaction_id@ && #[trigger] old(self).transactions().dom().contains(k)
                ==> final(self).transactions()[k] == old(self).transactions()[k],
            final(self).transactions()[transaction_id@].state == TransactionState::Active,
            final(self).transactions()[transaction_id@].started_at == started_at,
            final(self).transactions()[transaction_id@].events@.len() == 0,
            final(self).transactions()[transaction_id@].rollback_events@.len() == 0,
    {
        let id = copy_string(&transaction_id);
        let t = EventTransaction::new(transaction_id, started_at);
        self.active_transactions.insert(copy_string(&id), t);
        id
    }

    /// Number of transactions in flight.
    pub fn active_transaction_count(&self) -> (r: usize)
        ensures
            r == self.transactions().dom().len(),
    {
        self.active_transactions.len()
    }

    /// The transaction under `transaction_id`, if it is in flight.
    pub fn get_transaction(&self, transaction_id: &str) -> (r: Option<&EventTransaction>)
        ensures
            r is Some == self.transactions().dom().contains(transaction_id@),
            r matches Some(t) ==> *t == self.transactions()[transaction_id@],
    {
        self.active_transactions.get(transaction_id)
    }

    /// Adds an event to an active transaction: the first step of processing
    /// an event transactionally, before the handlers see it.
    pub fn add_event_to_transaction(&mut self, transaction_id: &str, event: Event) -> (r: Result<(), EventError>)
        ensures
            !old(self).transactions().dom().contains(transaction_id@) ==> (r matches Err(e)
                && is_filter_error(e, not_found_message(transaction_id@))
                && final(self).transactions() == old(self).transactions()),
            old(self).transactions().dom().contains(transaction_id@)
                && old(self).transactions()[transaction_id@].state != TransactionState::Active ==> (r matches Err(e)
                && is_filter_error(e, not_active_message(transaction_id@))
                && final(self).transactions() == old(self).transactions()),
            old(self).transactions().dom().contains(transaction_id@)
                && old(self).transactions()[transaction_id@].state == TransactionState::Active ==> {
                let t0 = old(self).transactions()[transaction_id@];
                let t1 = final(self).transactions()[transaction_id@];
                &&& r is Ok
                &&& final(self).transactions().dom() == old(self).transactions().dom()
                &&& forall|k: Seq<char>| k != transaction_id@ && #[trigger] old(self).transactions().dom().contains(k)
                    ==> final(self).transactions()[k] == old(self).transactions()[k]
                &&& t1.events@ == t0.events@.push(event)
                &&& t1.state == t0.state
                &&& t1.rollback_events == t0.rollback_events
                &&& t1.transaction_id == t0.transaction_id
                &&& t1.started_at == t0.started_at
            },
    {
        match self.active_transactions.remove(transaction_id) {
            None => Err(EventError::FilterError(concat3("Transaction ", transaction_id, " not found"))),
            Some(mut t) => {
                let key = owned(transaction_id);
                if !t.is_active() {
                    let ghost before = self.active_transactions@;
                    self.active_transactions.insert(key, t);
                    proof {
                        assert(self.active_transactions@ =~= old(self).active_transactions@);
                    }
                    return Err(EventError::FilterError(concat3("Transaction ", transaction_id, " is not active")));
                }
                t.add_event(event);
                self.active_transactions.insert(key, t);
                Ok(())
            },
        }
    }

    /// Marks a transaction failed, when it is in flight.
    pub fn mark_failed(&mut self, transaction_id: &str)
        ensures
            final(self).transactions().dom() == old(self).transactions().dom(),
            forall|k: Seq<char>| k != transaction_id@ && #[trigger] old(self).transactions().dom().contains(k)
                ==> final(self).transactions()[k] == old(self).transactions()[k],
            old(self).transactions().dom().contains(transaction_id@) ==> {
                let t0 = old(self).transactions()[transaction_id@];
                let t1 = final(self).transactions()[transaction_id@];
                &&& t1.state == TransactionState::Failed
                &&& t1.events == t0.events
                &&& t1.rollback_events == t0.rollback_events
                &&& t1.transaction_id == t0.transaction_id
                &&& t1.started_at == t0.started_at
            },
    {
        match self.active_transactions.remove(transaction_id) {
            None => {
                proof { assert(self.active_transactions@ =~= old(self).active_transactions@); }
            },
            Some(mut t) => {
                t.state = TransactionState::Failed;
                self.active_transactions.insert(owned(transaction_id), t);
                proof {
                    assert(self.active_transactions@.dom() =~= old(self).active_transactions@.dom());
                }
            },
        }
    }

    /// Checks that a transaction can be committed and gives its events, in
    /// the order they were added, for publishing.
    pub fn events_to_commit(&self, transaction_id: &str) -> (r: Result<&Vec<Event>, EventError>)
        ensures
            !self.transactions().dom().contains(transaction_id@) ==> (r matches Err(e)
                && is_filter_error(e, not_found_message(transaction_id@))),
            self.transactions().dom().contains(transaction_id@)
                && self.transactions()[transaction_id@].state != TransactionState::Active ==> (r matches Err(e)
                && is_filter_error(e, not_active_message(transaction_id@))),
            self.transactions().dom().contains(transaction_id@)
                && self.transactions()[transaction_id@].state == TransactionState::Active ==> (r matches Ok(v)
                && *v == self.transactions()[transaction_id@].events),
    {
        match self.active_transactions.get(transaction_id) {
            None => Err(EventError::FilterError(concat3("Transaction ", transaction_id, " not found"))),
            Some(t) => {
                if !t.is_active() {
                    Err(EventError::FilterError(concat3("Transaction ", transaction_id, " is not active")))
                } else {
                    Ok(&t.events)
                }
            },
        }
    }

    /// Completes a commit once its events are published: the transaction is
    /// marked committed and leaves the transactions in flight, and is given back.
    pub fn finish_commit(&mut self, transaction_id: &str) -> (r: Option<EventTransaction>)
        ensures
            final(self).transactions() == old(self).transactions().remove(transaction_id@),
            r is Some == old(self).transactions().dom().contains(transaction_id@),
            r matches Some(t) ==> t.state == TransactionState::Committed
                && t.events == old(self).transactions()[transaction_id@].events
                && t.transaction_id == old(self).transactions()[transaction_id@].transaction_id,
    {
        match self.active_transactions.remove(transaction_id) {
            None => None,
            Some(mut t) => {
                t.state = TransactionState::Committed;
                Some(t)
            },
        }
    }

    /// Completes a rollback once the handlers have run and the rollback
    /// events are published: the transaction is marked rolled back and leaves
    /// the transactions in flight. Errors met on the way are reported together.
    pub fn finish_rollback(&mut self, transaction_id: &str, rollback_errors: &Vec<String>) -> (r: (
        Result<(), EventError>,
        Option<EventTransaction>,
    ))
        ensures
            !old(self).transactions().dom().contains(transaction_id@) ==> (r.0 matches Err(e)
                && is_filter_error(e, not_found_message(transaction_id@)) && r.1 is None
                && final(self).transactions() == old(self).transactions()),
            old(self).transactions().dom().contains(transaction_id@) ==> {
                &&& final(self).transactions() == old(self).transactions().remove(transaction_id@)
                &&& r.1 matches Some(t) && t.state == TransactionState::RolledBack
                    && t.events == old(self).transactions()[transaction_id@].events
                    && t.rollback_events == old(self).transactions()[transaction_id@].rollback_events
                &&& rollback_errors@.len() == 0 ==> r.0 is Ok
                &&& rollback_errors@.len() > 0 ==> (r.0 matches Err(EventError::PersistenceError(m))
                    && m@ == "Rollback completed with errors: "@ + joined(views(rollback_errors@), ", "@))
            },
    {
        match self.active_transactions.remove(transaction_id) {
            None => {
                proof { assert(self.active_transactions@ =~= old(self).active_transactions@); }
                (Err(EventError::FilterError(concat3("Transaction ", transaction_id, " not found"))), None)
            },
            Some(mut t) => {
                t.state = TransactionState::RolledBack;
                if rollback_errors.len() == 0 {
                    (Ok(()), Some(t))
                } else {
                    let j = join_with(rollback_errors, ", ");
                    (Err(EventError::PersistenceError(concat("Rollback completed with errors: ", j.as_str()))), Some(t))
                }
            },
        }
    }

    /// Removes the transactions that started before `now - timeout_minutes`
    /// and are still active, and gives them back marked failed so that their
    /// rollbacks can run; their number is the number of stale transactions.
    pub fn cleanup_stale_transactions(&mut self, now: i64, timeout_minutes: i64) -> (r: Vec<EventTransaction>)
        requires
            i64::MIN <= timeout_minutes * 60_000_000_000 <= i64::MAX,
            i64::MIN <= now - timeout_minutes * 60_000_000_000 <= i64::MAX,
        ensures
            ({
                let cutoff = now - timeout_minutes * 60_000_000_000;
                &&& final(self).transactions() == Map::new(
                    |k: Seq<char>| old(self).transactions().dom().contains(k) && !is_stale(old(self).transactions()[k], cutoff),
                    |k: Seq<char>| old(self).transactions()[k],
                )
                &&& r@.len() + final(self).transactions().dom().len() == old(self).transactions().dom().len()
                &&& forall|i: int| 0 <= i < r@.len() ==> (#[trigger] r@[i]).state == TransactionState::Failed
            }),
    {
        let cutoff: i64 = ((now as i128) - (timeout_minutes as i128) * 60_000_000_000i128) as i64;
        let ghost m0 = self.active_transactions@;
        let ghost ko = self.active_transactions.key_order();
        proof {
            self.active_transactions.lemma_key_order();
        }
        let n = self.active_transactions.len();
        let mut keys: Vec<String> = Vec::new();
        let mut i: usize = 0;
        while i < n
            invariant
                i <= n,
                n == ko.len(),
                self.active_transactions@ == m0,
                self.active_transactions.key_order() == ko,
                views(keys@) == ko.take(i as int),
            decreases n - i,
        {
            let (k, _t) = self.active_transactions.entry_at(i);
            let ghost bk = keys@;
            keys.push(copy_string(k));
            assert(keys@ == bk.push(keys@.last()));
            assert(views(keys@) =~= views(bk).push(ko[i as int]));
            assert(views(keys@) =~= ko.take(i + 1));
            i = i + 1;
        }
        assert(ko.take(n as int) =~= ko);
        let mut removed: Vec<EventTransaction> = Vec::new();
        let mut j: usize = 0;
        proof {
            assert(ko.take(0) =~= Seq::<Seq<char>>::empty());
            assert(self.active_transactions@ =~= Map::new(
                |k: Seq<char>| m0.dom().contains(k) && !(ko.take(0).contains(k) && is_stale(m0[k], cutoff as int)),
                |k: Seq<char>| m0[k],
            ));
        }
        while j < keys.len()
            invariant
                j <= keys@.len(),
                views(keys@) == ko,
                ko.no_duplicates(),
                forall|k: Seq<char>| #[trigger] m0.dom().contains(k) <==> ko.contains(k),
                m0.dom().finite(),
                self.active_transactions@ == Map::new(
                    |k: Seq<char>| m0.dom().contains(k) && !(ko.take(j as int).contains(k) && is_stale(m0[k], cutoff as int)),
                    |k: Seq<char>| m0[k],
                ),
                removed@.len() + self.active_transactions@.dom().len() == m0.dom().len(),
                forall|q: int| 0 <= q < removed@.len() ==> (#[trigger] removed@[q]).state == TransactionState::Failed,
            decreases keys.len() - j,
        {
            let key = &keys[j];
            let ghost kv = key@;
            proof {
                assert(ko[j as int] == kv);
                let tj = ko.take(j as int);
                assert(!tj.contains(kv)) by {
                    if tj.contains(kv) {
                        let q = choose|q: int| 0 <= q < tj.len() && tj[q] == kv;
                        assert(ko[q] == ko[j as int]);
                    }
                }
                assert(ko.contains(kv));
                assert(m0.dom().contains(kv));
                self.active_transactions.lemma_key_order();
            }
            let stale_now = match self.active_transactions.get(key.as_str()) {
                Some(t) => t.started_at < cutoff && t.is_active(),
                None => false,
            };
            let ghost before = self.active_transactions@;
            if stale_now {
                match self.active_transactions.remove(key.as_str()) {
                    Some(mut t) => {
                        t.state = TransactionState::Failed;
                        removed.push(t);
                    },
                    None => {},
                }
                proof {
                    assert(before.dom().contains(kv));
                    assert(self.active_transactions@.dom() == before.dom().remove(kv));
                }
            }
            proof {
                let ta = ko.take(j as int);
                let tb = ko.take(j + 1);
                assert forall|k: Seq<char>| tb.contains(k) <==> (ta.contains(k) || k == kv) by {
                    if tb.contains(k) {
                        let q = choose|q: int| 0 <= q < tb.len() && tb[q] == k;
                        if q < j {
                            assert(ta[q] == k);
                        }
                    }
                    if ta.contains(k) {
                        let q = choose|q: int| 0 <= q < ta.len() && ta[q] == k;
                        assert(tb[q] == k);
                    }
                    if k == kv {
                        assert(tb[j as int] == k);
                    }
                }
                assert(self.active_transactions@ =~= Map::new(
                    |k: Seq<char>| m0.dom().contains(k) && !(ko.take(j + 1).contains(k) && is_stale(m0[k], cutoff as int)),
                    |k: Seq<char>| m0[k],
                ));
            }
            j = j + 1;
        }
        proof {
            assert(ko.take(keys@.len() as int) =~= ko);
            assert(self.active_transactions@ =~= Map::new(
                |k: Seq<char>| m0.dom().contains(k) && !is_stale(m0[k], cutoff as int),
                |k: Seq<char>| m0[k],
            ));
        }
        removed
    }
}

/// Handles test lifecycle and request events inside transactions.
pub struct TestExecutionTransactionHandler {
    name: String,
}

/// The lifecycle a started lifecycle event is undone with, if any.
pub open spec fn rollback_lifecycle(t: TestLifecycleType) -> Option<TestLifecycleType> {
    match t {
        TestLifecycleType::SuiteStarted => Some(TestLifecycleType::SuiteFailed),
        TestLifecycleType::TestCaseStarted => Some(TestLifecycleType::TestCaseFailed),
        _ => None,
    }
}

impl TestExecutionTransactionHandler {
    /// A handler with the given name.
    pub fn new(name: String) -> (r: Self)
        ensures
            r.handler_name()@ == name@,
    {
        TestExecutionTransactionHandler { name }
    }

    /// The handler's name.
    pub closed spec fn handler_name(&self) -> String {
        self.name
    }

    /// The handler's name.
    pub fn name(&self) -> (r: &String)
        ensures
            r@ == self.handler_name()@,
    {
        &self.name
    }

    /// Handles an event within a transaction. A started suite or test case
    /// adds a rollback event that marks it failed, under `rollback_event_id`
    /// at `now`, tagged as a rollback of the original event; a request event
    /// without a test case is refused; anything else passes.
    pub fn handle_event(
        &self,
        event: &Event,
        transaction: &mut EventTransaction,
        rollback_event_id: String,
        now: i64,
    ) -> (r: Result<(), EventError>)
        ensures
            final(transaction).events == old(transaction).events,
            final(transaction).state == old(transaction).state,
            match *event {
                Event::TestLifecycle(te) => r is Ok && match rollback_lifecycle(te.lifecycle_type) {
                    Some(lt) => old(transaction).state == TransactionState::Active ==> {
                        &&& final(transaction).rollback_events@.len() == old(transaction).rollback_events@.len() + 1
                        &&& final(transaction).rollback_events@.take(old(transaction).rollback_events@.len() as int)
                            == old(transaction).rollback_events@
                        &&& final(transaction).rollback_events@.last() matches Event::TestLifecycle(rb)
                            && rb.event_id == rollback_event_id && rb.timestamp == now
                            && rb.test_suite_id@ == te.test_suite_id@
                            && opt_view(rb.test_case_id) == opt_view(te.test_case_id)
                            && rb.lifecycle_type == lt
                            && rb.metadata@.dom() == set!["rollback"@, "original_event_id"@]
                            && rb.metadata@["rollback"@]@ == "true"@
                            && rb.metadata@["original_event_id"@]@ == te.event_id@
                    },
                    None => final(transaction).rollback_events == old(transaction).rollback_events,
                },
                Event::RequestExecution(re) => final(transaction).rollback_events == old(transaction).rollback_events
                    && (re.test_case_id@.len() == 0 <==> r is Err)
                    && (r matches Err(e) ==> is_filter_error(e, "Test case ID cannot be empty"@)),
                _ => r is Ok && final(transaction).rollback_events == old(transaction).rollback_events,
            },
    {
        match event {
            Event::TestLifecycle(te) => {
                let lt = match te.lifecycle_type {
                    TestLifecycleType::SuiteStarted => TestLifecycleType::SuiteFailed,
                    TestLifecycleType::TestCaseStarted => TestLifecycleType::TestCaseFailed,
                    _ => {
                        return Ok(());
                    },
                };
                let mut metadata: StrMap<String> = StrMap::new();
                metadata.insert(owned("rollback"), owned("true"));
                metadata.insert(owned("original_event_id"), copy_string(&te.event_id));
                proof {
                    reveal_strlit("rollback");
                    reveal_strlit("original_event_id");
                    assert(metadata@.dom() =~= set!["rollback"@, "original_event_id"@]);
                }
                let rb = Event::TestLifecycle(TestLifecycleEvent {
                    event_id: rollback_event_id,
                    timestamp: now,
                    test_suite_id: copy_string(&te.test_suite_id),
                    test_case_id: match &te.test_case_id {
                        Some(c) => Some(copy_string(c)),
                        None => None,
                    },
                    lifecycle_type: lt,
                    metadata,
                });
                proof {
                    assert("rollback"@.len() != "original_event_id"@.len());
                    assert("rollback"@ != "original_event_id"@);
                    assert(metadata@["rollback"@]@ == "true"@);
                    assert(metadata@["original_event_id"@]@ == te.event_id@);
                }
                transaction.add_rollback_event(rb);
                proof {
                    if old(transaction).state == TransactionState::Active {
                        assert(transaction.rollback_events@.take(old(transaction).rollback_events@.len() as int)
                            =~= old(transaction).rollback_events@);
                    }
                }
                Ok(())
            },
            Event::RequestExecution(re) => {
                if re.test_case_id.as_str().is_empty() {
                    Err(EventError::FilterError(owned("Test case ID cannot be empty")))
                } else {
                    Ok(())
                }
            },
            _ => Ok(()),
        }
    }
}

/// Recovery handler that reports rollback failures in the log.
pub struct LoggingRecoveryHandler;

impl LoggingRecoveryHandler {
    /// The handler's name.
    pub fn recovery_handler_name(&self) -> (r: String)
        ensures
            r@ == "logging_recovery_handler"@,
    {
        owned("logging_recovery_handler")
    }

    /// The line logged for a transaction whose rollback failed.
    pub fn failure_report(&self, transaction: &EventTransaction, errors: &Vec<String>) -> (r: String)
        ensures
            r@ == "Transaction "@ + transaction.transaction_id@ + " rollback failed with errors: "@
                + joined(views(errors@), ", "@),
    {
        let j = join_with(errors, ", ");
        let mut s = concat3("Transaction ", transaction.transaction_id.as_str(), " rollback failed with errors: ");
        s.append(j.as_str());
        s
    }
}

} // verus!
