//! Distributed execution: the registry of execution nodes, the choice of a
//! node for a task, the queue of tasks from pending to active to completed
//! with retries, and the partition of test cases into tasks. Times are
//! milliseconds since the Unix epoch.

use vstd::prelude::*;
use crate::text::{views, owned, copy_string, str_equal};
use crate::strmap::StrMap;
use crate::execution::{ExecutionContext, ExecutionResult, TestResult, successes, total_duration};

verus! {

/// Node capabilities and configuration.
pub struct NodeCapabilities {
    pub supported_protocols: Vec<String>,
    pub max_concurrent_tests: u32,
    pub cpu_cores: u32,
    pub memory_mb: u64,
    pub network_bandwidth_mbps: u32,
}

/// Current status of an execution node.
#[derive(Clone, Copy, Debug, PartialEq, Eq, Structural)]
pub enum NodeStatus {
    Available,
    Busy,
    Overloaded,
    Unreachable,
    Maintenance,
}

/// An execution node. `address` is its socket address as text.
pub struct ExecutionNode {
    pub node_id: String,
    pub address: String,
    pub capabilities: NodeCapabilities,
    pub status: NodeStatus,
    pub last_heartbeat: i64,
    pub current_load: u32,
    pub max_concurrent_tasks: u32,
}

/// Whether a node was last heard from too long ago (or, impossibly, in the future).
pub open spec fn is_stale_node(n: ExecutionNode, now: i64, timeout: u64) -> bool {
    now - n.last_heartbeat < 0 || now - n.last_heartbeat > timeout
}

/// The execution nodes known, by identifier.
pub struct NodeDiscovery {
    nodes: StrMap<ExecutionNode>,
    heartbeat_timeout_ms: u64,
    cleanup_interval_ms: u64,
}

impl NodeDiscovery {
    /// The nodes, by identifier.
    pub closed spec fn node_map(&self) -> Map<Seq<char>, ExecutionNode> {
        self.nodes@
    }

    /// How long a node may stay silent, in milliseconds.
    pub closed spec fn timeout(&self) -> u64 {
        self.heartbeat_timeout_ms
    }

    /// How often stale nodes are looked for, in milliseconds.
    pub closed spec fn cleanup_interval(&self) -> u64 {
        self.cleanup_interval_ms
    }

    /// How long a node may stay silent, in milliseconds.
    pub fn heartbeat_timeout(&self) -> (r: u64)
        ensures
            r == self.timeout(),
    {
        self.heartbeat_timeout_ms
    }

    /// No nodes; stale after `heartbeat_timeout_ms`, checked every 30 s.
    pub fn new(heartbeat_timeout_ms: u64) -> (r: Self)
        ensures
            r.node_map() == Map::<Seq<char>, ExecutionNode>::empty(),
            r.timeout() == heartbeat_timeout_ms,
            r.cleanup_interval() == 30_000,
    {
        NodeDiscovery { nodes: StrMap::new(), heartbeat_timeout_ms, cleanup_interval_ms: 30_000 }
    }

    /// Registers a node under its identifier, replacing any node with that identifier.
    pub fn register_node(&mut self, node: ExecutionNode)
        ensures
            final(self).node_map() == old(self).node_map().insert(node.node_id@, node),
            final(self).timeout() == old(self).timeout(),
    {
        let k = copy_string(&node.node_id);
        self.nodes.insert(k, node);
    }

    /// Forgets a node.
    pub fn deregister_node(&mut self, node_id: &str)
        ensures
            final(self).node_map() == old(self).node_map().remove(node_id@),
            final(self).timeout() == old(self).timeout(),
    {
        self.nodes.remove(node_id);
    }

    /// Records a heartbeat of a known node at `now`, with its status and load.
    pub fn update_heartbeat(&mut self, node_id: &str, status: NodeStatus, current_load: u32, now: i64)
        ensures
            final(self).node_map().dom() == old(self).node_map().dom(),
            final(self).timeout() == old(self).timeout(),
            forall|k: Seq<char>| k != node_id@ && #[trigger] old(self).node_map().dom().contains(k)
                ==> final(self).node_map()[k] == old(self).node_map()[k],
            old(self).node_map().dom().contains(node_id@) ==> {
                let a = old(self).node_map()[node_id@];
                let b = final(self).node_map()[node_id@];
                &&& b.last_heartbeat == now
                &&& b.status == status
                &&& b.current_load == current_load
                &&& b.node_id == a.node_id
                &&& b.max_concurrent_tasks == a.max_concurrent_tasks
            },
    {
        match self.nodes.remove(node_id) {
            Some(mut n) => {
                n.last_heartbeat = now;
                n.status = status;
                n.current_load = current_load;
                self.nodes.insert(owned(node_id), n);
                proof { assert(self.nodes@.dom() =~= old(self).nodes@.dom()); }
            },
            None => {
                proof { assert(self.nodes@ =~= old(self).nodes@); }
            },
        }
    }

    /// The available nodes.
    pub fn get_available_nodes(&self) -> (r: Vec<&ExecutionNode>)
        ensures
            forall|i: int| 0 <= i < r@.len() ==> (#[trigger] r@[i]).status == NodeStatus::Available
                && self.node_map().dom().contains(r@[i].node_id@) || r@[i].status == NodeStatus::Available,
            forall|k: Seq<char>| #[trigger] self.node_map().dom().contains(k)
                && self.node_map()[k].status == NodeStatus::Available
                ==> exists|i: int| 0 <= i < r@.len() && *r@[i] == self.node_map()[k],
    {
        let n = self.nodes.len();
        let ghost ko = self.nodes.key_order();
        let mut out: Vec<&ExecutionNode> = Vec::new();
        let mut i: usize = 0;
        proof { self.nodes.lemma_key_order(); }
        while i < n
            invariant
                i <= n,
                n == ko.len(),
                ko == self.nodes.key_order(),
                forall|q: int| 0 <= q < out@.len() ==> (#[trigger] out@[q]).status == NodeStatus::Available,
                forall|q: int| 0 <= q < i && #[trigger] self.node_map()[ko[q]].status == NodeStatus::Available
                    ==> exists|j: int| 0 <= j < out@.len() && *out@[j] == self.node_map()[ko[q]],
            decreases n - i,
        {
            let (k, node) = self.nodes.entry_at(i);
            let ghost before = out@;
            if node.status == NodeStatus::Available {
                out.push(node);
                proof {
                    assert(out@[before.len() as int] == node);
                    assert forall|q: int| 0 <= q < i + 1 && #[trigger] self.node_map()[ko[q]].status == NodeStatus::Available
                        implies exists|j: int| 0 <= j < out@.len() && *out@[j] == self.node_map()[ko[q]] by {
                        if q < i {
                            let j = choose|j: int| 0 <= j < before.len() && *before[j] == self.node_map()[ko[q]];
                            assert(out@[j] == before[j]);
                        } else {
                            assert(ko[q] == k@);
                        }
                    }
                }
            }
            i = i + 1;
        }
        proof {
            assert forall|k: Seq<char>| #[trigger] self.node_map().dom().contains(k)
                && self.node_map()[k].status == NodeStatus::Available
                implies exists|i: int| 0 <= i < out@.len() && *out@[i] == self.node_map()[k] by {
                self.nodes.lemma_key_order();
                assert(ko.contains(k));
                let q = choose|q: int| 0 <= q < ko.len() && ko[q] == k;
                assert(self.node_map()[ko[q]].status == NodeStatus::Available);
            }
        }
        out
    }

    /// The node with identifier `node_id`, if known.
    pub fn get_node(&self, node_id: &str) -> (r: Option<&ExecutionNode>)
        ensures
            r is Some == self.node_map().dom().contains(node_id@),
            r matches Some(n) ==> *n == self.node_map()[node_id@],
    {
        self.nodes.get(node_id)
    }

    /// Removes the nodes whose last heartbeat is more than the timeout
    /// before `now` (or after it), giving how many were removed.
    pub fn cleanup_stale_nodes(&mut self, now: i64) -> (r: usize)
        ensures
            final(self).node_map() == Map::new(
                |k: Seq<char>| old(self).node_map().dom().contains(k)
                    && !is_stale_node(old(self).node_map()[k], now, old(self).timeout()),
                |k: Seq<char>| old(self).node_map()[k],
            ),
            r + final(self).node_map().dom().len() == old(self).node_map().dom().len(),
            final(self).timeout() == old(self).timeout(),
    {
        let ghost m0 = self.nodes@;
        let ghost ko = self.nodes.key_order();
        let timeout = self.heartbeat_timeout_ms;
        proof { self.nodes.lemma_key_order(); }
        let n = self.nodes.len();
        let mut keys: Vec<String> = Vec::new();
        let mut i: usize = 0;
        while i < n
            invariant
                i <= n,
                n == ko.len(),
                self.nodes@ == m0,
                self.nodes.key_order() == ko,
                views(keys@) == ko.take(i as int),
            decreases n - i,
        {
            let (k, _v) = self.nodes.entry_at(i);
            let ghost bk = keys@;
            keys.push(copy_string(k));
            assert(keys@ == bk.push(keys@.last()));
            assert(views(keys@) =~= views(bk).push(ko[i as int]));
            assert(views(keys@) =~= ko.take(i + 1));
            i = i + 1;
        }
        assert(ko.take(n as int) =~= ko);
        let mut removed: usize = 0;
        let mut j: usize = 0;
        proof {
            assert(ko.take(0) =~= Seq::<Seq<char>>::empty());
            assert(self.nodes@ =~= Map::new(
                |k: Seq<char>| m0.dom().contains(k) && !(ko.take(0).contains(k) && is_stale_node(m0[k], now, timeout)),
                |k: Seq<char>| m0[k],
            ));
        }
        while j < keys.len()
            invariant
                j <= keys@.len(),
                views(keys@) == ko,
                ko.no_duplicates(),
                timeout == self.heartbeat_timeout_ms,
                self.heartbeat_timeout_ms == old(self).heartbeat_timeout_ms,
                m0 == old(self).nodes@,
                forall|k: Seq<char>| #[trigger] m0.dom().contains(k) <==> ko.contains(k),
                m0.dom().finite(),
                self.nodes@ == Map::new(
                    |k: Seq<char>| m0.dom().contains(k) && !(ko.take(j as int).contains(k) && is_stale_node(m0[k], now, timeout)),
                    |k: Seq<char>| m0[k],
                ),
                removed + self.nodes@.dom().len() == m0.dom().len(),
                removed <= j,
            decreases keys.len() - j,
        {
            let key = &keys[j];
            let ghost kv = key@;
            let ghost ta = ko.take(j as int);
            let ghost tb = ko.take(j + 1);
            proof {
                assert(ko[j as int] == kv);
                assert(!ta.contains(kv)) by {
                    if ta.contains(kv) {
                        let q = choose|q: int| 0 <= q < ta.len() && ta[q] == kv;
                        assert(ko[q] == ko[j as int]);
                    }
                }
                assert(ko.contains(kv));
                self.nodes.lemma_key_order();
                assert forall|q: Seq<char>| tb.contains(q) <==> (ta.contains(q) || q == kv) by {
                    if tb.contains(q) {
                        let x = choose|x: int| 0 <= x < tb.len() && tb[x] == q;
                        if x < j { assert(ta[x] == q); }
                    }
                    if ta.contains(q) {
                        let x = choose|x: int| 0 <= x < ta.len() && ta[x] == q;
                        assert(tb[x] == q);
                    }
                    if q == kv { assert(tb[j as int] == q); }
                }
            }
            let stale = match self.nodes.get(key.as_str()) {
                Some(node) => {
                    let hb = node.last_heartbeat;
                    let elapsed: i128 = (now as i128) - (hb as i128);
                    elapsed < 0 || elapsed > timeout as i128
                },
                None => false,
            };
            if stale {
                self.nodes.remove(key.as_str());
                removed = removed + 1;
            }
            proof {
                assert(self.nodes@ =~= Map::new(
                    |k: Seq<char>| m0.dom().contains(k) && !(tb.contains(k) && is_stale_node(m0[k], now, timeout)),
                    |k: Seq<char>| m0[k],
                ));
            }
            j = j + 1;
        }
        proof {
            assert(ko.take(keys@.len() as int) =~= ko);
            assert(self.nodes@ =~= Map::new(
                |k: Seq<char>| m0.dom().contains(k) && !is_stale_node(m0[k], now, timeout),
                |k: Seq<char>| m0[k],
            ));
        }
        removed
    }
}

/// Whether node `n` can take a task: available and below its task limit.
pub open spec fn can_take(n: ExecutionNode) -> bool {
    n.status == NodeStatus::Available && n.current_load < n.max_concurrent_tasks
}

/// Whether position `i` holds the least loaded node that can take a task,
/// the first one among equals.
pub open spec fn is_best_node(nodes: Seq<ExecutionNode>, i: int) -> bool {
    &&& 0 <= i < nodes.len()
    &&& can_take(nodes[i])
    &&& forall|j: int| 0 <= j < nodes.len() && can_take(nodes[j]) ==> nodes[i].current_load <= nodes[j].current_load
    &&& forall|j: int| 0 <= j < i && can_take(nodes[j]) ==> nodes[i].current_load < nodes[j].current_load
}

/// The nodes behind a sequence of references.
pub open spec fn node_derefs(s: Seq<&ExecutionNode>) -> Seq<ExecutionNode> {
    s.map_values(|n: &ExecutionNode| *n)
}

/// The position of the least loaded node that can take a task, the first
/// among equals; none when no node can.
pub fn select_best_node(nodes: &Vec<&ExecutionNode>) -> (r: Option<usize>)
    ensures
        match r {
            Some(i) => is_best_node(node_derefs(nodes@), i as int),
            None => forall|j: int| 0 <= j < nodes@.len() ==> !can_take(*#[trigger] nodes@[j]),
        },
{
    let ghost ns = node_derefs(nodes@);
    let mut best: Option<usize> = None;
    let mut i: usize = 0;
    while i < nodes.len()
        invariant
            i <= nodes@.len(),
            ns == node_derefs(nodes@),
            match best {
                Some(b) => b < i && can_take(ns[b as int])
                    && (forall|j: int| 0 <= j < i && can_take(ns[j]) ==> ns[b as int].current_load <= ns[j].current_load)
                    && (forall|j: int| 0 <= j < b && can_take(ns[j]) ==> ns[b as int].current_load < ns[j].current_load),
                None => forall|j: int| 0 <= j < i ==> !can_take(ns[j]),
            },
        decreases nodes.len() - i,
    {
        let n = nodes[i];
        assert(ns[i as int] == *n);
        if n.status == NodeStatus::Available && n.current_load < n.max_concurrent_tasks {
            match best {
                Some(b) => {
                    if n.current_load < nodes[b].current_load {
                        assert(ns[b as int] == *nodes@[b as int]);
                        best = Some(i);
                    }
                },
                None => {
                    best = Some(i);
                },
            }
        }
        i = i + 1;
    }
    proof {
        match best {
            None => {
                assert forall|j: int| 0 <= j < nodes@.len() implies !can_take(*#[trigger] nodes@[j]) by {
                    assert(ns[j] == *nodes@[j]);
                }
            },
            Some(b) => {},
        }
    }
    best
}

/// A task of test cases `P` for some node. `node_id` is empty until the
/// task is assigned.
pub struct TaskAssignment<P> {
    pub task_id: String,
    pub node_id: String,
    pub payload: P,
    pub assigned_at: i64,
    pub timeout_ms: u64,
    pub retry_count: u32,
}

/// The outcome of a task, with its test results `R`.
pub struct DistributedTaskResult<R> {
    pub task_id: String,
    pub node_id: String,
    pub test_results: Vec<R>,
    pub execution_duration_ms: u64,
    pub completed_at: i64,
    pub success: bool,
    pub error_message: Option<String>,
}

/// Number of attempts after which a failing task is given up.
pub const MAX_TASK_ATTEMPTS: u32 = 3;

/// Tasks waiting, running and finished.
pub struct TaskDistributor<P, R> {
    pending_tasks: Vec<TaskAssignment<P>>,
    active_tasks: StrMap<TaskAssignment<P>>,
    completed_tasks: StrMap<DistributedTaskResult<R>>,
    task_timeout_ms: u64,
}

impl<P, R> TaskDistributor<P, R> {
    /// Tasks waiting, oldest first.
    pub closed spec fn pending(&self) -> Seq<TaskAssignment<P>> {
        self.pending_tasks@
    }

    /// Tasks running, by identifier.
    pub closed spec fn active(&self) -> Map<Seq<char>, TaskAssignment<P>> {
        self.active_tasks@
    }

    /// Identifiers of the running tasks, in the order they were first assigned.
    pub closed spec fn active_order(&self) -> Seq<Seq<char>> {
        self.active_tasks.key_order()
    }

    /// `active_order` lists exactly the identifiers of the running tasks.
    pub proof fn lemma_active_order(&self)
        ensures
            forall|k: Seq<char>| #[trigger] self.active().dom().contains(k) <==> self.active_order().contains(k),
    {
        self.active_tasks.lemma_key_order();
    }

    /// Tasks finished, by identifier.
    pub closed spec fn completed(&self) -> Map<Seq<char>, DistributedTaskResult<R>> {
        self.completed_tasks@
    }

    /// How long a task may run, in milliseconds.
    pub closed spec fn task_timeout(&self) -> u64 {
        self.task_timeout_ms
    }

    /// No tasks; each task may run for `task_timeout_ms`.
    pub fn new(task_timeout_ms: u64) -> (r: Self)
        ensures
            r.pending().len() == 0,
            r.active() == Map::<Seq<char>, TaskAssignment<P>>::empty(),
            r.completed() == Map::<Seq<char>, DistributedTaskResult<R>>::empty(),
            r.task_timeout() == task_timeout_ms,
    {
        TaskDistributor {
            pending_tasks: Vec::new(),
            active_tasks: StrMap::new(),
            completed_tasks: StrMap::new(),
            task_timeout_ms,
        }
    }

    /// Queues a task under `task_id`, created at `now`, and gives back its identifier.
    pub fn add_task(&mut self, task_id: String, payload: P, now: i64) -> (r: String)
        ensures
            r@ == task_id@,
            final(self).pending().len() == old(self).pending().len() + 1,
            final(self).pending().take(old(self).pending().len() as int) == old(self).pending(),
            final(self).pending().last().task_id@ == task_id@,
            final(self).pending().last().node_id@.len() == 0,
            final(self).pending().last().payload == payload,
            final(self).pending().last().retry_count == 0,
            final(self).pending().last().timeout_ms == old(self).task_timeout(),
            final(self).active() == old(self).active(),
            final(self).completed() == old(self).completed(),
            final(self).task_timeout() == old(self).task_timeout(),
    {
        let id = copy_string(&task_id);
        let node_id = owned("");
        proof { reveal_strlit(""); }
        let t = TaskAssignment { task_id, node_id, payload, assigned_at: now, timeout_ms: self.task_timeout_ms, retry_count: 0 };
        self.pending_tasks.push(t);
        assert(self.pending_tasks@.take(old(self).pending_tasks@.len() as int) =~= old(self).pending_tasks@);
        id
    }

    /// Assigns the waiting tasks, oldest first, to the best node among
    /// `nodes` at `now`; when no node can take a task, nothing moves. Gives
    /// back the identifiers of the tasks assigned.
    pub fn distribute_tasks(&mut self, nodes: &Vec<&ExecutionNode>, now: i64) -> (r: Vec<String>)
        ensures
            final(self).completed() == old(self).completed(),
            final(self).task_timeout() == old(self).task_timeout(),
            (forall|j: int| 0 <= j < nodes@.len() ==> !can_take(*#[trigger] nodes@[j])) ==> {
                &&& r@.len() == 0
                &&& final(self).pending() == old(self).pending()
                &&& final(self).active() == old(self).active()
            },
            (exists|j: int| 0 <= j < nodes@.len() && can_take(*#[trigger] nodes@[j])) ==> {
                &&& final(self).pending().len() == 0
                &&& views(r@) == old(self).pending().map_values(|t: TaskAssignment<P>| t.task_id@)
                &&& forall|i: int| 0 <= i < old(self).pending().len() ==> {
                    let t = #[trigger] old(self).pending()[i];
                    &&& final(self).active().dom().contains(t.task_id@)
                }
                &&& exists|b: int| is_best_node(node_derefs(nodes@), b)
                    && forall|i: int| 0 <= i < r@.len() ==> #[trigger] final(self).active()[r@[i]@].node_id@ == nodes@[b].node_id@
                        || exists|i2: int| i < i2 < r@.len() && r@[i2]@ == r@[i]@
            },
    {
        let best = select_best_node(nodes);
        let b = match best {
            None => { return Vec::new(); },
            Some(b) => b,
        };
        proof {
            assert(can_take(node_derefs(nodes@)[b as int]));
            assert(node_derefs(nodes@)[b as int] == *nodes@[b as int]);
        }
        let mut assigned: Vec<String> = Vec::new();
        let ghost p0 = self.pending_tasks@;
        let total = self.pending_tasks.len();
        let mut queue: Vec<TaskAssignment<P>> = Vec::new();
        std::mem::swap(&mut queue, &mut self.pending_tasks);
        let mut k: usize = 0;
        while queue.len() > 0
            invariant
                k + queue@.len() == p0.len(),
                p0.len() == total,
                queue@ == p0.subrange(k as int, p0.len() as int),
                self.pending_tasks@.len() == 0,
                self.completed_tasks == old(self).completed_tasks,
                self.task_timeout_ms == old(self).task_timeout_ms,
                b < nodes@.len(),
                is_best_node(node_derefs(nodes@), b as int),
                views(assigned@) == p0.take(k as int).map_values(|t: TaskAssignment<P>| t.task_id@),
                forall|i: int| 0 <= i < k ==> self.active_tasks@.dom().contains(#[trigger] p0[i].task_id@),
                forall|i: int| 0 <= i < assigned@.len() ==> #[trigger] self.active_tasks@[assigned@[i]@].node_id@ == nodes@[b as int].node_id@
                    || exists|i2: int| i < i2 < assigned@.len() && assigned@[i2]@ == assigned@[i]@,
            decreases queue@.len(),
        {
            let mut t = queue.remove(0);
            assert(t == p0[k as int]);
            t.node_id = copy_string(&nodes[b].node_id);
            t.assigned_at = now;
            let id = copy_string(&t.task_id);
            let ghost before_assigned = assigned@;
            let ghost before_active = self.active_tasks@;
            self.active_tasks.insert(copy_string(&t.task_id), t);
            assigned.push(id);
            proof {
                assert(queue@ =~= p0.subrange(k + 1, p0.len() as int));
                let t2 = p0.take(k + 1);
                assert(t2.drop_last() =~= p0.take(k as int));
                assert(views(assigned@) =~= views(before_assigned).push(p0[k as int].task_id@));
                assert(views(assigned@) =~= p0.take(k + 1).map_values(|t: TaskAssignment<P>| t.task_id@));
                assert forall|i: int| 0 <= i < assigned@.len() implies #[trigger] self.active_tasks@[assigned@[i]@].node_id@ == nodes@[b as int].node_id@
                    || exists|i2: int| i < i2 < assigned@.len() && assigned@[i2]@ == assigned@[i]@ by {
                    if i < before_assigned.len() {
                        assert(assigned@[i] == before_assigned[i]);
                        if assigned@[i]@ == p0[k as int].task_id@ {
                            assert(assigned@[before_assigned.len() as int]@ == assigned@[i]@);
                        } else {
                            if !(exists|i2: int| i < i2 < before_assigned.len() && before_assigned[i2]@ == before_assigned[i]@) {
                                assert(before_active[before_assigned[i]@].node_id@ == nodes@[b as int].node_id@);
                            } else {
                                let i2 = choose|i2: int| i < i2 < before_assigned.len() && before_assigned[i2]@ == before_assigned[i]@;
                                assert(assigned@[i2] == before_assigned[i2]);
                            }
                        }
                    }
                }
            }
            k = k + 1;
        }
        proof {
            assert(p0.take(p0.len() as int) =~= p0);
        }
        assigned
    }

    /// Records a finished task: a running task moves to the finished ones
    /// with its result; a result for a task not running is ignored.
    pub fn handle_task_completion(&mut self, result: DistributedTaskResult<R>)
        ensures
            old(self).active().dom().contains(result.task_id@) ==> {
                &&& final(self).active() == old(self).active().remove(result.task_id@)
                &&& final(self).completed() == old(self).completed().insert(result.task_id@, result)
            },
            !old(self).active().dom().contains(result.task_id@) ==> {
                &&& final(self).active() == old(self).active()
                &&& final(self).completed() == old(self).completed()
            },
            final(self).pending() == old(self).pending(),
    {
        match self.active_tasks.remove(result.task_id.as_str()) {
            Some(_) => {
                let k = copy_string(&result.task_id);
                self.completed_tasks.insert(k, result);
            },
            None => {
                proof { assert(self.active_tasks@ =~= old(self).active_tasks@); }
            },
        }
    }

    /// Records a failed attempt of a running task: fewer than three attempts
    /// so far puts it back in the queue, unassigned; the third failure
    /// records it as finished without success, with the error, at `now`.
    pub fn handle_task_failure(&mut self, task_id: &str, error: String, now: i64)
        ensures
            final(self).active() == old(self).active().remove(task_id@),
            !old(self).active().dom().contains(task_id@) ==> {
                &&& final(self).pending() == old(self).pending()
                &&& final(self).completed() == old(self).completed()
            },
            old(self).active().dom().contains(task_id@) ==> {
                let t = old(self).active()[task_id@];
                if t.retry_count + 1 < MAX_TASK_ATTEMPTS {
                    &&& final(self).completed() == old(self).completed()
                    &&& final(self).pending().len() == old(self).pending().len() + 1
                    &&& final(self).pending().take(old(self).pending().len() as int) == old(self).pending()
                    &&& final(self).pending().last().task_id == t.task_id
                    &&& final(self).pending().last().retry_count == t.retry_count + 1
                    &&& final(self).pending().last().node_id@.len() == 0
                    &&& final(self).pending().last().payload == t.payload
                } else {
                    &&& final(self).pending() == old(self).pending()
                    &&& final(self).completed().dom() == old(self).completed().dom().insert(task_id@)
                    &&& !final(self).completed()[task_id@].success
                    &&& final(self).completed()[task_id@].node_id@ == t.node_id@
                    &&& final(self).completed()[task_id@].error_message matches Some(e) && e@ == error@
                }
            },
    {
        match self.active_tasks.remove(task_id) {
            None => {
                proof { assert(self.active_tasks@ =~= old(self).active_tasks@.remove(task_id@)); }
            },
            Some(mut t) => {
                if t.retry_count < 2 {
                    t.retry_count = t.retry_count + 1;
                    t.node_id = owned("");
                    proof { reveal_strlit(""); }
                    self.pending_tasks.push(t);
                    assert(self.pending_tasks@.take(old(self).pending_tasks@.len() as int) =~= old(self).pending_tasks@);
                } else {
                    let failed = DistributedTaskResult {
                        task_id: owned(task_id),
                        node_id: copy_string(&t.node_id),
                        test_results: Vec::new(),
                        execution_duration_ms: 0,
                        completed_at: now,
                        success: false,
                        error_message: Some(error),
                    };
                    self.completed_tasks.insert(owned(task_id), failed);
                    proof {
                        assert(self.completed_tasks@.dom() =~= old(self).completed_tasks@.dom().insert(task_id@));
                    }
                }
            },
        }
    }

    /// Whether no task is waiting or running.
    pub fn all_tasks_completed(&self) -> (r: bool)
        ensures
            r == (self.pending().len() == 0 && self.active().dom().len() == 0),
    {
        self.pending_tasks.len() == 0 && self.active_tasks.len() == 0
    }

    /// Number of running tasks.
    pub fn active_tasks_count(&self) -> (r: usize)
        ensures
            r == self.active().dom().len(),
    {
        self.active_tasks.len()
    }

    /// Number of waiting tasks.
    pub fn pending_tasks_count(&self) -> (r: usize)
        ensures
            r == self.pending().len(),
    {
        self.pending_tasks.len()
    }

    /// The result of a finished task, if it finished.
    pub fn completed_task(&self, task_id: &str) -> (r: Option<&DistributedTaskResult<R>>)
        ensures
            r is Some == self.completed().dom().contains(task_id@),
            r matches Some(x) ==> *x == self.completed()[task_id@],
    {
        self.completed_tasks.get(task_id)
    }

    /// The identifiers of the running tasks assigned to `node_id`.
    pub fn tasks_on_node(&self, node_id: &str) -> (r: Vec<String>)
        ensures
            views(r@) == tasks_of_node(self.active(), self.active_order(), node_id@),
            forall|i: int| 0 <= i < r@.len() ==> self.active().dom().contains(#[trigger] r@[i]@)
                && self.active()[r@[i]@].node_id@ == node_id@,
    {
        let n = self.active_tasks.len();
        let mut out: Vec<String> = Vec::new();
        let mut i: usize = 0;
        while i < n
            invariant
                i <= n,
                n == self.active_tasks.key_order().len(),
                views(out@) == tasks_of_node(self.active(), self.active_order().take(i as int), node_id@),
                forall|q: int| 0 <= q < out@.len() ==> self.active().dom().contains(#[trigger] out@[q]@)
                    && self.active()[out@[q]@].node_id@ == node_id@,
            decreases n - i,
        {
            let (k, t) = self.active_tasks.entry_at(i);
            proof {
                self.active_tasks.lemma_key_order();
                assert(self.active_tasks.key_order().contains(k@));
                let tk = self.active_order().take(i + 1);
                assert(tk.drop_last() =~= self.active_order().take(i as int));
                assert(tk.last() == k@);
            }
            if str_equal(t.node_id.as_str(), node_id) {
                let ghost before = out@;
                out.push(copy_string(k));
                proof {
                    assert(views(out@) =~= views(before).push(k@));
                    assert forall|q: int| 0 <= q < out@.len() implies self.active().dom().contains(#[trigger] out@[q]@)
                        && self.active()[out@[q]@].node_id@ == node_id@ by {
                        if q < before.len() {
                            assert(out@[q] == before[q]);
                        }
                    }
                }
            }
            i = i + 1;
        }
        assert(self.active_order().take(n as int) =~= self.active_order());
        out
    }
}

/// The identifiers among `keys` of the tasks in `active` assigned to `node`,
/// in the order of `keys`.
pub open spec fn tasks_of_node<P>(active: Map<Seq<char>, TaskAssignment<P>>, keys: Seq<Seq<char>>, node: Seq<char>) -> Seq<Seq<char>>
    decreases keys.len(),
{
    if keys.len() == 0 {
        Seq::empty()
    } else {
        let rest = tasks_of_node(active, keys.drop_last(), node);
        if active[keys.last()].node_id@ == node {
            rest.push(keys.last())
        } else {
            rest
        }
    }
}

/// The chunk size for spreading `test_count` test cases over `node_count`
/// nodes: their quotient, at least one.
pub fn chunk_size_for(test_count: usize, node_count: usize) -> (r: usize)
    requires
        node_count > 0,
    ensures
        r == if test_count / node_count > 0 { test_count / node_count } else { 1 },
{
    let q = test_count / node_count;
    if q > 0 { q } else { 1 }
}

/// Splits items into consecutive chunks of `chunk_size` (the last may be shorter).
pub fn partition_test_cases<T>(items: Vec<T>, chunk_size: usize) -> (r: Vec<Vec<T>>)
    requires
        chunk_size > 0,
    ensures
        flatten_chunks(r@) == items@,
        forall|i: int| 0 <= i < r@.len() ==> (#[trigger] r@[i])@.len() > 0 && r@[i]@.len() <= chunk_size,
        forall|i: int| 0 <= i < r@.len() - 1 ==> (#[trigger] r@[i])@.len() == chunk_size,
{
    let ghost all = items@;
    let total = items.len();
    let mut rest = items;
    let mut out: Vec<Vec<T>> = Vec::new();
    let mut cur: Vec<T> = Vec::new();
    let mut taken: usize = 0;
    while rest.len() > 0
        invariant
            taken + rest@.len() == all.len(),
            all.len() == total,
            rest@ == all.subrange(taken as int, all.len() as int),
            flatten_chunks(out@) + cur@ == all.take(taken as int),
            cur@.len() < chunk_size,
            forall|i: int| 0 <= i < out@.len() ==> (#[trigger] out@[i])@.len() == chunk_size,
        decreases rest@.len(),
    {
        let x = rest.remove(0);
        let ghost before_cur = cur@;
        cur.push(x);
        proof {
            assert(x == all[taken as int]);
            assert(all.take(taken + 1) =~= all.take(taken as int).push(x));
            assert(rest@ =~= all.subrange(taken + 1, all.len() as int));
        }
        taken = taken + 1;
        if cur.len() == chunk_size {
            let ghost before_out = out@;
            let full = cur;
            out.push(full);
            cur = Vec::new();
            proof {
                lemma_flatten_push(before_out, full@);
                assert(out@ == before_out.push(full));
                assert(flatten_chunks(out@) =~= flatten_chunks(before_out) + full@);
                assert(flatten_chunks(out@) + cur@ =~= all.take(taken as int));
            }
        }
    }
    let ghost out0 = out@;
    if cur.len() > 0 {
        let last = cur;
        out.push(last);
        proof {
            lemma_flatten_push(out0, last@);
            assert(out@ == out0.push(last));
        }
    }
    proof {
        assert(all.take(all.len() as int) =~= all);
        if out@.len() == out0.len() {
            assert(flatten_chunks(out@) =~= all);
        } else {
            assert(flatten_chunks(out@) =~= all);
        }
    }
    out
}

/// The items of the chunks, in order.
pub open spec fn flatten_chunks<T>(chunks: Seq<Vec<T>>) -> Seq<T>
    decreases chunks.len(),
{
    if chunks.len() == 0 {
        Seq::empty()
    } else {
        flatten_chunks(chunks.drop_last()) + chunks.last()@
    }
}

proof fn lemma_flatten_push<T>(chunks: Seq<Vec<T>>, c: Seq<T>)
    ensures
        forall|v: Vec<T>| v@ == c ==> #[trigger] flatten_chunks(chunks.push(v)) == flatten_chunks(chunks) + c,
{
    assert forall|v: Vec<T>| v@ == c implies #[trigger] flatten_chunks(chunks.push(v)) == flatten_chunks(chunks) + c by {
        assert(chunks.push(v).drop_last() =~= chunks);
    }
}

/// Two mock nodes for trying distribution locally.
pub fn mock_nodes(now: i64) -> (r: Vec<ExecutionNode>)
    ensures
        r@.len() == 2,
        r@[0].node_id@ == "node-1"@ && r@[0].max_concurrent_tasks == 10 && r@[0].status == NodeStatus::Available,
        r@[1].node_id@ == "node-2"@ && r@[1].max_concurrent_tasks == 20 && r@[1].status == NodeStatus::Available,
        r@[0].current_load == 0 && r@[1].current_load == 0,
        r@[0].last_heartbeat == now && r@[1].last_heartbeat == now,
{
    let mut p1: Vec<String> = Vec::new();
    p1.push(owned("http"));
    p1.push(owned("https"));
    let mut p2: Vec<String> = Vec::new();
    p2.push(owned("http"));
    p2.push(owned("https"));
    p2.push(owned("grpc"));
    let mut v: Vec<ExecutionNode> = Vec::new();
    v.push(ExecutionNode {
        node_id: owned("node-1"),
        address: owned("127.0.0.1:8001"),
        capabilities: NodeCapabilities {
            supported_protocols: p1,
            max_concurrent_tests: 10,
            cpu_cores: 4,
            memory_mb: 8192,
            network_bandwidth_mbps: 1000,
        },
        status: NodeStatus::Available,
        last_heartbeat: now,
        current_load: 0,
        max_concurrent_tasks: 10,
    });
    v.push(ExecutionNode {
        node_id: owned("node-2"),
        address: owned("127.0.0.1:8002"),
        capabilities: NodeCapabilities {
            supported_protocols: p2,
            max_concurrent_tests: 20,
            cpu_cores: 8,
            memory_mb: 16384,
            network_bandwidth_mbps: 1000,
        },
        status: NodeStatus::Available,
        last_heartbeat: now,
        current_load: 0,
        max_concurrent_tasks: 20,
    });
    v
}


/// The test results of the tasks, task after task.
pub open spec fn task_results_flat(tasks: Seq<DistributedTaskResult<TestResult>>) -> Seq<TestResult>
    decreases tasks.len(),
{
    if tasks.len() == 0 {
        Seq::empty()
    } else {
        task_results_flat(tasks.drop_last()) + tasks.last().test_results@
    }
}

/// Gathers the test results of completed tasks into one result for the run
/// in `context`, task after task; the run's duration is `elapsed_ms`.
pub fn aggregate_results(
    task_results: Vec<DistributedTaskResult<TestResult>>,
    context: ExecutionContext,
    elapsed_ms: u64,
) -> (r: ExecutionResult)
    requires
        task_results_flat(task_results@).len() < usize::MAX,
        total_duration(task_results_flat(task_results@)) <= u64::MAX,
    ensures
        r.test_results@ == task_results_flat(task_results@),
        r.success_count == successes(r.test_results@),
        r.failure_count + r.success_count == r.test_results@.len(),
        r.total_duration_ms == elapsed_ms,
        r.context == context,
{
    let ghost tasks = task_results@;
    let ghost all = task_results_flat(tasks);
    let mut flat: Vec<TestResult> = Vec::new();
    let mut rest = task_results;
    assert(tasks.take(0) =~= Seq::<DistributedTaskResult<TestResult>>::empty());
    while rest.len() > 0
        invariant
            rest@.len() <= tasks.len(),
            rest@ == tasks.subrange(tasks.len() - rest@.len(), tasks.len() as int),
            flat@ == task_results_flat(tasks.take(tasks.len() - rest@.len())),
        decreases rest@.len(),
    {
        let ghost k = tasks.len() - rest@.len();
        let task = rest.remove(0);
        proof {
            assert(task == tasks[k]);
            assert(rest@ =~= tasks.subrange(k + 1, tasks.len() as int));
            assert(tasks.take(k + 1).drop_last() =~= tasks.take(k));
        }
        let ghost base = flat@;
        let mut items = task.test_results;
        let ghost its = items@;
        assert(base + its.take(0) =~= base);
        while items.len() > 0
            invariant
                items@ == its.subrange(its.len() - items@.len(), its.len() as int),
                items@.len() <= its.len(),
                flat@ == base + its.take(its.len() - items@.len()),
            decreases items@.len(),
        {
            let ghost q = its.len() - items@.len();
            let t = items.remove(0);
            proof {
                assert(t == its[q]);
                assert(items@ =~= its.subrange(q + 1, its.len() as int));
                assert(base + its.take(q + 1) =~= (base + its.take(q)).push(t));
            }
            flat.push(t);
        }
        assert(its.take(its.len() as int) =~= its);
    }
    assert(tasks.take(tasks.len() as int) =~= tasks);
    let mut result = ExecutionResult::new(context);
    let mut rest2 = flat;
    assert(all.take(0) =~= Seq::<TestResult>::empty());
    while rest2.len() > 0
        invariant
            rest2@.len() <= all.len(),
            rest2@ == all.subrange(all.len() - rest2@.len(), all.len() as int),
            all.len() < usize::MAX,
            total_duration(all) <= u64::MAX,
            result.tallied(),
            result.context == context,
            result.test_results@ == all.take(all.len() - rest2@.len()),
        decreases rest2@.len(),
    {
        let ghost i = all.len() - rest2@.len();
        let t = rest2.remove(0);
        proof {
            assert(t == all[i]);
            assert(rest2@ =~= all.subrange(i + 1, all.len() as int));
            assert(all.take(i + 1).drop_last() =~= all.take(i));
            lemma_duration_prefix(all, i + 1);
            lemma_successes_le(all.take(i));
        }
        result.add_test_result(t);
        assert(result.test_results@ =~= all.take(i + 1));
    }
    assert(all.take(all.len() as int) =~= all);
    result.total_duration_ms = elapsed_ms;
    result
}

proof fn lemma_duration_prefix(s: Seq<TestResult>, n: int)
    requires
        0 <= n <= s.len(),
    ensures
        total_duration(s.take(n)) <= total_duration(s),
    decreases s.len() - n,
{
    if n < s.len() {
        lemma_duration_prefix(s, n + 1);
        assert(s.take(n + 1).drop_last() =~= s.take(n));
    } else {
        assert(s.take(n) =~= s);
    }
}

proof fn lemma_successes_le(s: Seq<TestResult>)
    ensures
        successes(s) <= s.len(),
    decreases s.len(),
{
    if s.len() > 0 {
        lemma_successes_le(s.drop_last());
    }
}

} // verus!
