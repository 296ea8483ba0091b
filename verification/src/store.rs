//! The state of the CDN manager: its tables, their invariant, and the lookups
//! the operations share.
//!
//! Each table is a list in which no key occurs twice; its order is the order
//! in which its records were first stored.
use vstd::prelude::*;
use crate::models::{
    Resource, ResourceView, ResourceStats, Node, NodeView, PreheatTask, PreheatTaskView, PurgeTask,
    PurgeTaskView, AuditLog, AuditLogView, ResourcePublish,
};
use crate::queues::{PreheatQueue, DelayQueue, preheat_entries, delay_entries, preheat_queue_new, delay_queue_new};
use crate::text::{owned, concat};
use crate::ids::{uuid_text, id_text};

verus! {

/// Hits and misses of one resource on one node.
#[derive(Clone, Copy, Debug)]
pub struct StatEntry {
    pub resource_id: u128,
    pub node_id: u128,
    pub stats: ResourceStats,
}

/// One request served by the CDN: when, whether it was a hit, and on which node.
#[derive(Clone, Copy, Debug)]
pub struct RequestRecord {
    pub at: i128,
    pub hit: bool,
    pub node_id: Option<u128>,
}

/// What went wrong with a request, and the answer it gets.
#[derive(Clone, Copy, Debug, PartialEq, Eq, Structural)]
pub enum ErrorKind {
    BadRequest,
    NotFound,
    Unauthorized,
    Forbidden,
}

/// A refused request: its kind and message.
pub struct ApiError {
    pub kind: ErrorKind,
    pub message: String,
}

/// `r` is the refusal of kind `kind` with message `msg`.
pub open spec fn refused<T>(r: Result<T, ApiError>, kind: ErrorKind, msg: Seq<char>) -> bool {
    r matches Err(e) && e.kind == kind && e.message@ == msg
}

/// A refusal of kind `kind` with message `msg`.
pub fn refuse<T>(kind: ErrorKind, msg: &str) -> (r: Result<T, ApiError>)
    ensures
        refused(r, kind, msg@),
{
    Err(ApiError { kind, message: owned(msg) })
}

/// No value occurs twice in `s`.
pub open spec fn distinct<K>(s: Seq<K>) -> bool {
    forall|i: int, j: int| 0 <= i < j < s.len() ==> s[i] != s[j]
}

/// The identifiers of a list of resources.
pub open spec fn resource_ids(s: Seq<Resource>) -> Seq<u128> {
    s.map_values(|r: Resource| r.id)
}

/// The identifiers of a list of nodes.
pub open spec fn node_ids(s: Seq<Node>) -> Seq<u128> {
    s.map_values(|n: Node| n.id)
}

/// The identifiers of a list of preheat tasks.
pub open spec fn preheat_ids(s: Seq<PreheatTask>) -> Seq<u128> {
    s.map_values(|t: PreheatTask| t.task_id)
}

/// The identifiers of a list of purge tasks.
pub open spec fn purge_ids(s: Seq<PurgeTask>) -> Seq<u128> {
    s.map_values(|t: PurgeTask| t.task_id)
}

/// The (resource, node) keys of a list of statistics.
pub open spec fn stat_keys(s: Seq<StatEntry>) -> Seq<(u128, u128)> {
    s.map_values(|e: StatEntry| (e.resource_id, e.node_id))
}

/// The (resource, node) keys of a list of publications.
pub open spec fn publish_keys(s: Seq<ResourcePublish>) -> Seq<(u128, u128)> {
    s.map_values(|p: ResourcePublish| (p.resource_id, p.node_id))
}

/// The views of a list of resources.
pub open spec fn resource_views(s: Seq<Resource>) -> Seq<ResourceView> {
    s.map_values(|r: Resource| r@)
}

/// The views of a list of nodes.
pub open spec fn node_views(s: Seq<Node>) -> Seq<NodeView> {
    s.map_values(|n: Node| n@)
}

/// The views of a list of preheat tasks.
pub open spec fn preheat_views(s: Seq<PreheatTask>) -> Seq<PreheatTaskView> {
    s.map_values(|t: PreheatTask| t@)
}

/// The views of a list of purge tasks.
pub open spec fn purge_views(s: Seq<PurgeTask>) -> Seq<PurgeTaskView> {
    s.map_values(|t: PurgeTask| t@)
}

/// The views of a list of audit entries.
pub open spec fn log_views(s: Seq<AuditLog>) -> Seq<AuditLogView> {
    s.map_values(|l: AuditLog| l@)
}

/// A resource with identifier `id` is stored in `s`.
pub open spec fn has_resource(s: Seq<Resource>, id: u128) -> bool {
    exists|i: int| 0 <= i < s.len() && s[i].id == id
}

/// A node with identifier `id` is stored in `s`.
pub open spec fn has_node(s: Seq<Node>, id: u128) -> bool {
    exists|i: int| 0 <= i < s.len() && s[i].id == id
}

/// Keeping some records of a list in which no key occurs twice gives such a list again.
pub proof fn lemma_distinct_filter<T, K>(s: Seq<T>, key: spec_fn(T) -> K, p: spec_fn(T) -> bool)
    requires
        distinct(s.map_values(key)),
    ensures
        distinct(s.filter(p).map_values(key)),
    decreases s.len(),
{
    reveal(Seq::filter);
    if s.len() == 0 {
        assert(s.filter(p).len() == 0);
    } else {
        let d = s.drop_last();
        let last = s.last();
        assert(d.map_values(key) =~= s.map_values(key).drop_last());
        lemma_distinct_filter(d, key, p);
        assert(s =~= d.push(last));
        d.lemma_filter_push(last, p);
        if p(last) {
            let f = d.filter(p);
            assert forall|i: int, j: int| 0 <= i < j < f.push(last).len()
                implies f.push(last).map_values(key)[i] != f.push(last).map_values(key)[j] by {
                if j == f.len() {
                    assert(f.contains(f[i]));
                    d.lemma_filter_contains_rev(p, f[i]);
                    let k = choose|k: int| 0 <= k < d.len() && d[k] == f[i];
                    assert(s.map_values(key)[k] == key(f[i]));
                    assert(s.map_values(key)[s.len() - 1] == key(last));
                } else {
                    assert(f.map_values(key)[i] != f.map_values(key)[j]);
                }
            }
        }
    }
}

/// One more step of a loop that keeps some records of `s` and maps them.
pub proof fn lemma_filter_map_step<A, B>(s: Seq<A>, i: int, p: spec_fn(A) -> bool, f: spec_fn(A) -> B)
    requires
        0 <= i < s.len(),
    ensures
        s.take(i + 1).filter(p).map_values(f) == (if p(s[i]) {
            s.take(i).filter(p).map_values(f).push(f(s[i]))
        } else {
            s.take(i).filter(p).map_values(f)
        }),
        s.take(i + 1).filter(p) == (if p(s[i]) {
            s.take(i).filter(p).push(s[i])
        } else {
            s.take(i).filter(p)
        }),
{
    assert(s.take(i + 1) =~= s.take(i).push(s[i]));
    s.take(i).lemma_filter_push(s[i], p);
    if p(s[i]) {
        assert(s.take(i).filter(p).push(s[i]).map_values(f) =~= s.take(i).filter(p).map_values(f).push(f(s[i])));
    }
}

/// Every identifier of `ids` names a stored node.
pub open spec fn all_nodes_known(nodes: Seq<Node>, ids: Seq<u128>) -> bool {
    forall|i: int| 0 <= i < ids.len() ==> has_node(nodes, #[trigger] ids[i])
}

/// Every identifier of `ids` names a stored resource.
pub open spec fn all_resources_known(res: Seq<Resource>, ids: Seq<u128>) -> bool {
    forall|i: int| 0 <= i < ids.len() ==> has_resource(res, #[trigger] ids[i])
}

/// `i` is the first position of `ids` that names no stored node.
pub open spec fn first_unknown_node_at(nodes: Seq<Node>, ids: Seq<u128>, i: int) -> bool {
    0 <= i < ids.len() && !has_node(nodes, ids[i]) && forall|j: int| 0 <= j < i ==> has_node(nodes, #[trigger] ids[j])
}

/// `i` is the first position of `ids` that names no stored resource.
pub open spec fn first_unknown_resource_at(res: Seq<Resource>, ids: Seq<u128>, i: int) -> bool {
    0 <= i < ids.len() && !has_resource(res, ids[i]) && forall|j: int| 0 <= j < i ==> has_resource(res, #[trigger] ids[j])
}

/// The first identifier of `ids` that names no stored node (meaningful when there is one).
pub open spec fn first_unknown_node(nodes: Seq<Node>, ids: Seq<u128>) -> u128 {
    ids[choose|i: int| first_unknown_node_at(nodes, ids, i)]
}

/// The first identifier of `ids` that names no stored resource (meaningful when there is one).
pub open spec fn first_unknown_resource(res: Seq<Resource>, ids: Seq<u128>) -> u128 {
    ids[choose|i: int| first_unknown_resource_at(res, ids, i)]
}

/// The message of a request that names an unknown node or resource.
pub open spec fn not_found_text(prefix: Seq<char>, id: u128) -> Seq<char> {
    prefix + uuid_text(id) + " not found"@
}

/// "<prefix><id> not found".
pub fn not_found_message(prefix: &str, id: u128) -> (r: String)
    ensures
        r@ == not_found_text(prefix@, id),
{
    let t = id_text(id);
    let a = concat(prefix, t.as_str());
    concat(a.as_str(), " not found")
}

/// `s` with `v` in place of the record whose key is `id`, or with `v` added
/// at the end when no record has that key (the effect of a map insertion).
pub open spec fn upserted<K, V>(s: Seq<V>, keys: Seq<K>, id: K, v: V) -> Seq<V> {
    if exists|i: int| 0 <= i < keys.len() && keys[i] == id {
        s.update(choose|i: int| 0 <= i < keys.len() && keys[i] == id, v)
    } else {
        s.push(v)
    }
}

/// What storing `v` under key `id` does: `v` is in the result, at the
/// position of the record with that key if there is one, else at the end;
/// the records under other keys stay where they were.
pub proof fn lemma_upserted<K, V>(s: Seq<V>, keys: Seq<K>, id: K, v: V)
    requires
        keys.len() == s.len(),
    ensures
        exists|i: int| 0 <= i < upserted(s, keys, id, v).len() && upserted(s, keys, id, v)[i] == v,
        upserted(s, keys, id, v).len() >= s.len(),
        forall|j: int| 0 <= j < s.len() && keys[j] != id ==> #[trigger] upserted(s, keys, id, v)[j] == s[j],
{
    if exists|i: int| 0 <= i < keys.len() && keys[i] == id {
        let i = choose|i: int| 0 <= i < keys.len() && keys[i] == id;
        assert(upserted(s, keys, id, v)[i] == v);
    } else {
        assert(upserted(s, keys, id, v)[s.len() as int] == v);
    }
}

/// Removing one element of a list in which no value occurs twice gives such a list again.
pub proof fn lemma_distinct_remove<K>(s: Seq<K>, i: int)
    requires
        distinct(s),
        0 <= i < s.len(),
    ensures
        distinct(s.remove(i)),
{
    let r = s.remove(i);
    assert forall|a: int, b: int| 0 <= a < b < r.len() implies r[a] != r[b] by {
        let a2 = if a < i { a } else { a + 1 };
        let b2 = if b < i { b } else { b + 1 };
        assert(r[a] == s[a2] && r[b] == s[b2]);
    }
}

/// The statistics of resource `rid` on node `nid`, or none at all when there are none.
pub open spec fn stats_or_empty(s: Seq<StatEntry>, rid: u128, nid: u128) -> ResourceStats {
    if has_stat(s, rid, nid) { stat_with(s, rid, nid) } else { ResourceStats::empty() }
}

/// The resource with identifier `id` in `s` (meaningful when there is one).
pub open spec fn resource_with(s: Seq<Resource>, id: u128) -> Resource {
    s[choose|i: int| 0 <= i < s.len() && s[i].id == id]
}

/// The node with identifier `id` in `s` (meaningful when there is one).
pub open spec fn node_with(s: Seq<Node>, id: u128) -> Node {
    s[choose|i: int| 0 <= i < s.len() && s[i].id == id]
}

/// Storing `v` under a key already present replaces the record at a position
/// holding that key; storing under a new key appends `v`.
pub proof fn lemma_upserted_shape<K, V>(s: Seq<V>, keys: Seq<K>, id: K, v: V)
    ensures
        (exists|i: int| 0 <= i < keys.len() && keys[i] == id) ==> exists|j: int|
            0 <= j < keys.len() && keys[j] == id && #[trigger] s.update(j, v) == upserted(s, keys, id, v),
        !(exists|i: int| 0 <= i < keys.len() && keys[i] == id) ==> upserted(s, keys, id, v) == s.push(v),
{
    if exists|i: int| 0 <= i < keys.len() && keys[i] == id {
        let j = choose|i: int| 0 <= i < keys.len() && keys[i] == id;
        assert(s.update(j, v) == upserted(s, keys, id, v));
    }
}

/// After storing `v` (whose key is `id`) into `s`, giving table `t` whose keys
/// `tkeys` are still distinct: some position holds key `id`, and every position
/// holding key `id` holds `v`.
pub proof fn lemma_upserted_found<K, V>(
    s: Seq<V>,
    keys: Seq<K>,
    id: K,
    v: V,
    t: Seq<V>,
    tkeys: Seq<K>,
    key_of: spec_fn(V) -> K,
)
    requires
        keys.len() == s.len(),
        t == upserted(s, keys, id, v),
        tkeys.len() == t.len(),
        forall|k: int| 0 <= k < t.len() ==> #[trigger] tkeys[k] == key_of(t[k]),
        key_of(v) == id,
        distinct(tkeys),
    ensures
        exists|q: int| 0 <= q < t.len() && tkeys[q] == id,
        forall|q: int| 0 <= q < t.len() && #[trigger] tkeys[q] == id ==> t[q] == v,
{
    lemma_upserted(s, keys, id, v);
    let p = choose|i: int| 0 <= i < t.len() && t[i] == v;
    assert(tkeys[p] == key_of(t[p]));
    assert forall|q: int| 0 <= q < t.len() && #[trigger] tkeys[q] == id implies t[q] == v by {
        if q < p {
            assert(tkeys[q] != tkeys[p]);
        } else if p < q {
            assert(tkeys[p] != tkeys[q]);
        }
    }
}

/// The name of node `id`, or the empty text when no such node is stored.
pub open spec fn node_name_or_empty(s: Seq<Node>, id: u128) -> Seq<char> {
    if has_node(s, id) { node_with(s, id).name@ } else { Seq::empty() }
}

/// Statistics of resource `rid` on node `nid` are stored in `s`.
pub open spec fn has_stat(s: Seq<StatEntry>, rid: u128, nid: u128) -> bool {
    exists|i: int| 0 <= i < s.len() && s[i].resource_id == rid && s[i].node_id == nid
}

/// The statistics of resource `rid` on node `nid` (meaningful when there are some).
pub open spec fn stat_with(s: Seq<StatEntry>, rid: u128, nid: u128) -> ResourceStats {
    s[choose|i: int| 0 <= i < s.len() && s[i].resource_id == rid && s[i].node_id == nid].stats
}

/// The last access of resource `rid` on node `nid`, if it was ever accessed there.
pub open spec fn last_access(s: Seq<StatEntry>, rid: u128, nid: u128) -> Option<i128> {
    if has_stat(s, rid, nid) { stat_with(s, rid, nid).last_accessed_at } else { None }
}

/// The state of the manager.
pub struct AppState {
    pub resources: Vec<Resource>,
    pub resource_stats: Vec<StatEntry>,
    pub nodes: Vec<Node>,
    pub resource_publishes: Vec<ResourcePublish>,
    pub preheat_tasks: Vec<PreheatTask>,
    pub preheat_queue: PreheatQueue,
    pub purge_tasks: Vec<PurgeTask>,
    pub delayed_purge_queue: DelayQueue,
    pub audit_logs: Vec<AuditLog>,
    pub request_history: Vec<RequestRecord>,
}

impl AppState {
    /// Nothing changed but the audit trail.
    pub open spec fn same_but_logs(&self, other: &AppState) -> bool {
        &&& self.resources == other.resources
        &&& self.resource_stats == other.resource_stats
        &&& self.nodes == other.nodes
        &&& self.resource_publishes == other.resource_publishes
        &&& self.preheat_tasks == other.preheat_tasks
        &&& self.preheat_queue == other.preheat_queue
        &&& self.purge_tasks == other.purge_tasks
        &&& self.delayed_purge_queue == other.delayed_purge_queue
        &&& self.request_history == other.request_history
    }

    /// Nothing changed.
    pub open spec fn same(&self, other: &AppState) -> bool {
        &&& self.same_but_logs(other)
        &&& self.audit_logs == other.audit_logs
    }

    /// No key occurs twice in any table, and the queues are finite.
    pub open spec fn wf(&self) -> bool {
        &&& distinct(resource_ids(self.resources@))
        &&& distinct(node_ids(self.nodes@))
        &&& distinct(preheat_ids(self.preheat_tasks@))
        &&& distinct(purge_ids(self.purge_tasks@))
        &&& distinct(stat_keys(self.resource_stats@))
        &&& distinct(publish_keys(self.resource_publishes@))
        &&& preheat_entries(self.preheat_queue).dom().finite()
        &&& delay_entries(self.delayed_purge_queue).dom().finite()
        &&& forall|k: (u128, u128, i128)| #[trigger] delay_entries(self.delayed_purge_queue).contains_key(k)
            ==> delay_entries(self.delayed_purge_queue)[k] == k.2
    }

    /// An empty manager.
    pub fn new() -> (s: AppState)
        ensures
            s.wf(),
            s.resources@.len() == 0,
            s.resource_stats@.len() == 0,
            s.nodes@.len() == 0,
            s.resource_publishes@.len() == 0,
            s.preheat_tasks@.len() == 0,
            preheat_entries(s.preheat_queue).dom().is_empty(),
            s.purge_tasks@.len() == 0,
            delay_entries(s.delayed_purge_queue).dom().is_empty(),
            s.audit_logs@.len() == 0,
            s.request_history@.len() == 0,
    {
        let preheat_queue = preheat_queue_new();
        let delayed_purge_queue = delay_queue_new();
        proof {
            assert(preheat_entries(preheat_queue).dom() =~= Set::empty());
            assert(delay_entries(delayed_purge_queue).dom() =~= Set::empty());
        }
        AppState {
            resources: Vec::new(),
            resource_stats: Vec::new(),
            nodes: Vec::new(),
            resource_publishes: Vec::new(),
            preheat_tasks: Vec::new(),
            preheat_queue,
            purge_tasks: Vec::new(),
            delayed_purge_queue,
            audit_logs: Vec::new(),
            request_history: Vec::new(),
        }
    }

    /// The position of the resource `id`, if it is stored.
    pub fn resource_pos(&self, id: u128) -> (r: Option<usize>)
        ensures
            match r {
                Some(i) => i < self.resources@.len() && self.resources@[i as int].id == id,
                None => !has_resource(self.resources@, id),
            },
    {
        let mut i: usize = 0;
        while i < self.resources.len()
            invariant
                0 <= i <= self.resources@.len(),
                forall|j: int| 0 <= j < i ==> self.resources@[j].id != id,
            decreases self.resources@.len() - i,
        {
            if self.resources[i].id == id {
                return Some(i);
            }
            i += 1;
        }
        None
    }

    /// The position of the node `id`, if it is stored.
    pub fn node_pos(&self, id: u128) -> (r: Option<usize>)
        ensures
            match r {
                Some(i) => i < self.nodes@.len() && self.nodes@[i as int].id == id,
                None => !has_node(self.nodes@, id),
            },
    {
        let mut i: usize = 0;
        while i < self.nodes.len()
            invariant
                0 <= i <= self.nodes@.len(),
                forall|j: int| 0 <= j < i ==> self.nodes@[j].id != id,
            decreases self.nodes@.len() - i,
        {
            if self.nodes[i].id == id {
                return Some(i);
            }
            i += 1;
        }
        None
    }

    /// The position of the preheat task `id`, if it is stored.
    pub fn preheat_pos(&self, id: u128) -> (r: Option<usize>)
        ensures
            match r {
                Some(i) => i < self.preheat_tasks@.len() && self.preheat_tasks@[i as int].task_id == id,
                None => forall|j: int| 0 <= j < self.preheat_tasks@.len() ==> self.preheat_tasks@[j].task_id != id,
            },
    {
        let mut i: usize = 0;
        while i < self.preheat_tasks.len()
            invariant
                0 <= i <= self.preheat_tasks@.len(),
                forall|j: int| 0 <= j < i ==> self.preheat_tasks@[j].task_id != id,
            decreases self.preheat_tasks@.len() - i,
        {
            if self.preheat_tasks[i].task_id == id {
                return Some(i);
            }
            i += 1;
        }
        None
    }

    /// The position of the purge task `id`, if it is stored.
    pub fn purge_pos(&self, id: u128) -> (r: Option<usize>)
        ensures
            match r {
                Some(i) => i < self.purge_tasks@.len() && self.purge_tasks@[i as int].task_id == id,
                None => forall|j: int| 0 <= j < self.purge_tasks@.len() ==> self.purge_tasks@[j].task_id != id,
            },
    {
        let mut i: usize = 0;
        while i < self.purge_tasks.len()
            invariant
                0 <= i <= self.purge_tasks@.len(),
                forall|j: int| 0 <= j < i ==> self.purge_tasks@[j].task_id != id,
            decreases self.purge_tasks@.len() - i,
        {
            if self.purge_tasks[i].task_id == id {
                return Some(i);
            }
            i += 1;
        }
        None
    }

    /// The position of the statistics of resource `rid` on node `nid`, if any.
    pub fn stat_pos(&self, rid: u128, nid: u128) -> (r: Option<usize>)
        ensures
            match r {
                Some(i) => i < self.resource_stats@.len()
                    && self.resource_stats@[i as int].resource_id == rid
                    && self.resource_stats@[i as int].node_id == nid,
                None => forall|j: int| 0 <= j < self.resource_stats@.len()
                    ==> !(self.resource_stats@[j].resource_id == rid && self.resource_stats@[j].node_id == nid),
            },
    {
        let mut i: usize = 0;
        while i < self.resource_stats.len()
            invariant
                0 <= i <= self.resource_stats@.len(),
                forall|j: int| 0 <= j < i
                    ==> !(self.resource_stats@[j].resource_id == rid && self.resource_stats@[j].node_id == nid),
            decreases self.resource_stats@.len() - i,
        {
            if self.resource_stats[i].resource_id == rid && self.resource_stats[i].node_id == nid {
                return Some(i);
            }
            i += 1;
        }
        None
    }

    /// The position of the publication of resource `rid` on node `nid`, if any.
    pub fn publish_pos(&self, rid: u128, nid: u128) -> (r: Option<usize>)
        ensures
            match r {
                Some(i) => i < self.resource_publishes@.len()
                    && self.resource_publishes@[i as int].resource_id == rid
                    && self.resource_publishes@[i as int].node_id == nid,
                None => forall|j: int| 0 <= j < self.resource_publishes@.len()
                    ==> !(self.resource_publishes@[j].resource_id == rid && self.resource_publishes@[j].node_id == nid),
            },
    {
        let mut i: usize = 0;
        while i < self.resource_publishes.len()
            invariant
                0 <= i <= self.resource_publishes@.len(),
                forall|j: int| 0 <= j < i
                    ==> !(self.resource_publishes@[j].resource_id == rid && self.resource_publishes@[j].node_id == nid),
            decreases self.resource_publishes@.len() - i,
        {
            if self.resource_publishes[i].resource_id == rid && self.resource_publishes[i].node_id == nid {
                return Some(i);
            }
            i += 1;
        }
        None
    }
    /// The stored resource at position `i` is the one `resource_with` names.
    pub proof fn lemma_resource_at(&self, i: int)
        requires
            self.wf(),
            0 <= i < self.resources@.len(),
        ensures
            has_resource(self.resources@, self.resources@[i].id),
            resource_with(self.resources@, self.resources@[i].id) == self.resources@[i],
    {
        let id = self.resources@[i].id;
        let j = choose|j: int| 0 <= j < self.resources@.len() && self.resources@[j].id == id;
        if j != i {
            assert(resource_ids(self.resources@)[i] == resource_ids(self.resources@)[j]);
        }
    }

    /// The stored node at position `i` is the one `node_with` names.
    pub proof fn lemma_node_at(&self, i: int)
        requires
            self.wf(),
            0 <= i < self.nodes@.len(),
        ensures
            has_node(self.nodes@, self.nodes@[i].id),
            node_with(self.nodes@, self.nodes@[i].id) == self.nodes@[i],
    {
        let id = self.nodes@[i].id;
        let j = choose|j: int| 0 <= j < self.nodes@.len() && self.nodes@[j].id == id;
        if j != i {
            assert(node_ids(self.nodes@)[i] == node_ids(self.nodes@)[j]);
        }
    }

    /// The stored statistics at position `i` are the ones `stat_with` names.
    pub proof fn lemma_stat_at(&self, i: int)
        requires
            self.wf(),
            0 <= i < self.resource_stats@.len(),
        ensures
            has_stat(self.resource_stats@, self.resource_stats@[i].resource_id, self.resource_stats@[i].node_id),
            stat_with(self.resource_stats@, self.resource_stats@[i].resource_id, self.resource_stats@[i].node_id)
                == self.resource_stats@[i].stats,
    {
        let e = self.resource_stats@[i];
        let j = choose|j: int| 0 <= j < self.resource_stats@.len()
            && self.resource_stats@[j].resource_id == e.resource_id && self.resource_stats@[j].node_id == e.node_id;
        if j != i {
            assert(stat_keys(self.resource_stats@)[i] == stat_keys(self.resource_stats@)[j]);
        }
    }

    /// The name of node `id`, or the empty text when it is not stored.
    pub fn node_name_or_default(&self, id: u128) -> (r: String)
        requires
            self.wf(),
        ensures
            r@ == node_name_or_empty(self.nodes@, id),
    {
        match self.node_pos(id) {
            Some(i) => {
                proof { self.lemma_node_at(i as int); }
                self.nodes[i].name.clone()
            },
            None => String::new(),
        }
    }

    /// The last access of resource `rid` on node `nid`, if any.
    pub fn last_access_of(&self, rid: u128, nid: u128) -> (r: Option<i128>)
        requires
            self.wf(),
        ensures
            r == last_access(self.resource_stats@, rid, nid),
    {
        match self.stat_pos(rid, nid) {
            Some(i) => {
                proof { self.lemma_stat_at(i as int); }
                self.resource_stats[i].stats.last_accessed_at
            },
            None => None,
        }
    }
    /// The first identifier of `ids` that names no stored node, if any.
    pub fn find_unknown_node(&self, ids: &Vec<u128>) -> (r: Option<u128>)
        ensures
            r is None <==> all_nodes_known(self.nodes@, ids@),
            r matches Some(id) ==> id == first_unknown_node(self.nodes@, ids@),
    {
        let mut i: usize = 0;
        while i < ids.len()
            invariant
                0 <= i <= ids@.len(),
                forall|j: int| 0 <= j < i ==> has_node(self.nodes@, #[trigger] ids@[j]),
            decreases ids@.len() - i,
        {
            if self.node_pos(ids[i]).is_none() {
                proof {
                    assert(first_unknown_node_at(self.nodes@, ids@, i as int));
                    let k = choose|k: int| first_unknown_node_at(self.nodes@, ids@, k);
                    if k < i {
                        assert(has_node(self.nodes@, ids@[k]));
                    } else if k > i {
                        assert(has_node(self.nodes@, ids@[i as int]));
                    }
                }
                return Some(ids[i]);
            }
            i += 1;
        }
        None
    }

    /// The first identifier of `ids` that names no stored resource, if any.
    pub fn find_unknown_resource(&self, ids: &Vec<u128>) -> (r: Option<u128>)
        ensures
            r is None <==> all_resources_known(self.resources@, ids@),
            r matches Some(id) ==> id == first_unknown_resource(self.resources@, ids@),
    {
        let mut i: usize = 0;
        while i < ids.len()
            invariant
                0 <= i <= ids@.len(),
                forall|j: int| 0 <= j < i ==> has_resource(self.resources@, #[trigger] ids@[j]),
            decreases ids@.len() - i,
        {
            if self.resource_pos(ids[i]).is_none() {
                proof {
                    assert(first_unknown_resource_at(self.resources@, ids@, i as int));
                    let k = choose|k: int| first_unknown_resource_at(self.resources@, ids@, k);
                    if k < i {
                        assert(has_resource(self.resources@, ids@[k]));
                    } else if k > i {
                        assert(has_resource(self.resources@, ids@[i as int]));
                    }
                }
                return Some(ids[i]);
            }
            i += 1;
        }
        None
    }
    /// The statistics of resource `rid` on node `nid`, or none at all.
    pub fn stats_or_default(&self, rid: u128, nid: u128) -> (r: ResourceStats)
        requires
            self.wf(),
        ensures
            r == stats_or_empty(self.resource_stats@, rid, nid),
    {
        match self.stat_pos(rid, nid) {
            Some(i) => {
                proof { self.lemma_stat_at(i as int); }
                self.resource_stats[i].stats
            },
            None => ResourceStats::default(),
        }
    }
    /// Stores publication `p`, replacing the publication with its (resource, node) key.
    pub fn put_publish(&mut self, p: ResourcePublish)
        requires
            old(self).wf(),
        ensures
            final(self).wf(),
            final(self).resource_publishes@ == upserted(
                old(self).resource_publishes@,
                publish_keys(old(self).resource_publishes@),
                (p.resource_id, p.node_id),
                p,
            ),
            final(self).resources == old(self).resources,
            final(self).resource_stats == old(self).resource_stats,
            final(self).nodes == old(self).nodes,
            final(self).preheat_tasks == old(self).preheat_tasks,
            final(self).preheat_queue == old(self).preheat_queue,
            final(self).purge_tasks == old(self).purge_tasks,
            final(self).delayed_purge_queue == old(self).delayed_purge_queue,
            final(self).audit_logs == old(self).audit_logs,
            final(self).request_history == old(self).request_history,
    {
        let ghost keys = publish_keys(old(self).resource_publishes@);
        let ghost key = (p.resource_id, p.node_id);
        match self.publish_pos(p.resource_id, p.node_id) {
            Some(i) => {
                proof {
                    assert(keys[i as int] == key);
                    let k = choose|k: int| 0 <= k < keys.len() && keys[k] == key;
                    if k != i {
                        assert(keys[k] == keys[i as int]);
                        assert(false);
                    }
                }
                let ghost before = self.resource_publishes@;
                self.resource_publishes.set(i, p);
                proof {
                    assert(publish_keys(self.resource_publishes@) =~= publish_keys(before));
                }
            },
            None => {
                let ghost before = self.resource_publishes@;
                self.resource_publishes.push(p);
                proof {
                    assert forall|k: int| 0 <= k < keys.len() implies keys[k] != key by {
                        assert(keys[k] == (before[k].resource_id, before[k].node_id));
                    }
                    assert(publish_keys(self.resource_publishes@) =~= publish_keys(before).push(key));
                }
            },
        }
    }

    /// Stores statistics entry `e`, replacing the entry with its (resource, node) key.
    pub fn put_stat(&mut self, e: StatEntry)
        requires
            old(self).wf(),
        ensures
            final(self).wf(),
            final(self).resource_stats@ == upserted(
                old(self).resource_stats@,
                stat_keys(old(self).resource_stats@),
                (e.resource_id, e.node_id),
                e,
            ),
            final(self).resources == old(self).resources,
            final(self).resource_publishes == old(self).resource_publishes,
            final(self).nodes == old(self).nodes,
            final(self).preheat_tasks == old(self).preheat_tasks,
            final(self).preheat_queue == old(self).preheat_queue,
            final(self).purge_tasks == old(self).purge_tasks,
            final(self).delayed_purge_queue == old(self).delayed_purge_queue,
            final(self).audit_logs == old(self).audit_logs,
            final(self).request_history == old(self).request_history,
    {
        let ghost keys = stat_keys(old(self).resource_stats@);
        let ghost key = (e.resource_id, e.node_id);
        match self.stat_pos(e.resource_id, e.node_id) {
            Some(i) => {
                proof {
                    assert(keys[i as int] == key);
                    let k = choose|k: int| 0 <= k < keys.len() && keys[k] == key;
                    if k != i {
                        assert(keys[k] == keys[i as int]);
                        assert(false);
                    }
                }
                let ghost before = self.resource_stats@;
                self.resource_stats.set(i, e);
                proof {
                    assert(stat_keys(self.resource_stats@) =~= stat_keys(before));
                }
            },
            None => {
                let ghost before = self.resource_stats@;
                self.resource_stats.push(e);
                proof {
                    assert forall|k: int| 0 <= k < keys.len() implies keys[k] != key by {
                        assert(keys[k] == (before[k].resource_id, before[k].node_id));
                    }
                    assert(stat_keys(self.resource_stats@) =~= stat_keys(before).push(key));
                }
            },
        }
    }
}

impl Default for AppState {
    /// An empty manager (see `AppState::new`).
    fn default() -> (s: AppState)
        ensures
            s.wf(),
            s.resources@.len() == 0,
            s.nodes@.len() == 0,
            s.preheat_tasks@.len() == 0,
            s.purge_tasks@.len() == 0,
            s.audit_logs@.len() == 0,
    {
        AppState::new()
    }
}

} // verus!
