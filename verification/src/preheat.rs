//! Preheat tasks: copying resources onto nodes ahead of demand, queued by
//! priority, run pair by pair, and retried for what failed.
use vstd::prelude::*;
use crate::models::{
    PreheatTask, PreheatTaskView, TaskStatus, TaskPriority, Resource, ResourcePublish, PagedResult,
    copy_ids, parse_priority, priority_named, parse_task_status, task_status_named,
};
use crate::store::{
    AppState, ApiError, ErrorKind, refused, refuse, preheat_ids, preheat_views, upserted, has_resource,
    resource_with, all_nodes_known, all_resources_known, first_unknown_node, first_unknown_resource,
    not_found_text, not_found_message, log_views, distinct, lemma_upserted_found,
};
use crate::audit::{audit_entry, query_page, query_page_size, page_size_of, opt_view};
use crate::text::{decimal, decimal_text, concat};
use crate::ids::{uuid_text, id_text, new_id};
use crate::clock::{now_nanos, representable};
use crate::queues::{preheat_entries, preheat_queue_push, preheat_queue_pop};
use crate::models::{NodeStatus};
use crate::store::{StatEntry, RequestRecord, has_node, node_with, stats_or_empty, publish_keys, stat_keys};
use crate::purge::contains_id;
use crate::sorting::{desc_order, is_desc_order, arrange, page_window, page_in_range, page_bounds};

verus! {

/// A request to preheat resources on nodes.
pub struct CreatePreheatRequest {
    pub resource_ids: Vec<u128>,
    pub node_ids: Vec<u128>,
    pub priority: Option<String>,
    pub created_by: String,
}

/// A query of the preheat tasks.
pub struct PreheatTaskQuery {
    pub page: Option<u64>,
    pub page_size: Option<u64>,
    pub status: Option<String>,
}

/// Bytes a node is expected to take in per second while preheating (10 MiB).
pub const PREHEAT_BYTES_PER_SEC: u64 = 10_485_760;

/// The least estimated duration of a preheat task, in seconds.
pub const MIN_PREHEAT_SECS: u64 = 10;

/// The rank under which a priority waits in the queue. The queue hands out
/// the least rank first, so low-priority tasks leave it first.
pub open spec fn priority_rank(p: TaskPriority) -> u8 {
    match p {
        TaskPriority::Low => 0,
        TaskPriority::Medium => 1,
        TaskPriority::High => 2,
    }
}

/// The rank under which a priority waits in the queue.
pub fn rank_of(p: TaskPriority) -> (r: u8)
    ensures
        r == priority_rank(p),
{
    match p {
        TaskPriority::Low => 0,
        TaskPriority::Medium => 1,
        TaskPriority::High => 2,
    }
}

/// The total size of the stored resources that `rids` lists, each as often as it is listed.
pub open spec fn sizes_of(res: Seq<Resource>, rids: Seq<u128>) -> nat
    decreases rids.len(),
{
    if rids.len() == 0 {
        0
    } else {
        sizes_of(res, rids.drop_last()) + (if has_resource(res, rids.last()) {
            resource_with(res, rids.last()).size_bytes as nat
        } else {
            0
        })
    }
}

/// The total size of a prefix of a listing is at most that of the whole listing.
pub proof fn lemma_sizes_prefix(res: Seq<Resource>, rids: Seq<u128>, i: int)
    requires
        0 <= i <= rids.len(),
    ensures
        sizes_of(res, rids.take(i)) <= sizes_of(res, rids),
    decreases rids.len(),
{
    if i < rids.len() {
        assert(rids.drop_last().take(i) =~= rids.take(i));
        lemma_sizes_prefix(res, rids.drop_last(), i);
    } else {
        assert(rids.take(i) =~= rids);
    }
}

/// The estimated duration, in seconds, of preheating `total_size` bytes.
pub open spec fn estimated_secs(total_size: nat) -> nat {
    let q = total_size / (PREHEAT_BYTES_PER_SEC as nat);
    if q > MIN_PREHEAT_SECS { q } else { MIN_PREHEAT_SECS as nat }
}

/// The estimated duration, in seconds, of preheating `total_size` bytes.
pub fn estimate_secs(total_size: u64) -> (r: u64)
    ensures
        r == estimated_secs(total_size as nat),
{
    let q = total_size / PREHEAT_BYTES_PER_SEC;
    if q > MIN_PREHEAT_SECS { q } else { MIN_PREHEAT_SECS }
}

/// Why a preheat request is refused, if it is: no resources, no nodes, then
/// the first unknown resource, then the first unknown node.
pub open spec fn preheat_refusal(st: AppState, req: CreatePreheatRequest) -> Option<Seq<char>> {
    if req.resource_ids@.len() == 0 {
        Some("No resources specified"@)
    } else if req.node_ids@.len() == 0 {
        Some("No nodes specified"@)
    } else if !all_resources_known(st.resources@, req.resource_ids@) {
        Some(not_found_text("Resource "@, first_unknown_resource(st.resources@, req.resource_ids@)))
    } else if !all_nodes_known(st.nodes@, req.node_ids@) {
        Some(not_found_text("Node "@, first_unknown_node(st.nodes@, req.node_ids@)))
    } else {
        None
    }
}

/// The counts a preheat request needs fit in `u64`: the number of (resource,
/// node) pairs and the total size of the resources.
pub open spec fn preheat_computable(st: AppState, req: CreatePreheatRequest) -> bool {
    &&& req.resource_ids@.len() * req.node_ids@.len() <= u64::MAX
    &&& sizes_of(st.resources@, req.resource_ids@) <= u64::MAX
}

/// The view of an optional text.
pub open spec fn opt_text_view(o: Option<String>) -> Option<Seq<char>> {
    match o { Some(s) => Some(s@), None => None }
}

/// The task an accepted preheat request creates.
pub open spec fn created_preheat(st: AppState, req: CreatePreheatRequest, task_id: u128, now: i128) -> PreheatTaskView {
    PreheatTaskView {
        task_id,
        resource_ids: req.resource_ids@,
        node_ids: req.node_ids@,
        status: TaskStatus::Pending,
        priority: priority_named(opt_text_view(req.priority)),
        total: (req.resource_ids@.len() * req.node_ids@.len()) as u64,
        done: 0,
        failed: 0,
        failed_resources: Seq::empty(),
        started_at: None,
        finished_at: None,
        created_by: req.created_by@,
        estimated_duration_secs: estimated_secs(sizes_of(st.resources@, req.resource_ids@)) as u64,
        created_at: now,
    }
}

/// The scope an accepted preheat request is audited with: "<n> resources, <m> nodes".
pub open spec fn preheat_scope(req: CreatePreheatRequest) -> Seq<char> {
    decimal(req.resource_ids@.len()) + " resources, "@ + decimal(req.node_ids@.len()) + " nodes"@
}

/// Nothing changed but the preheat tasks, their queue and the audit trail.
pub open spec fn same_but_preheat(new: AppState, old: AppState) -> bool {
    &&& new.resources == old.resources
    &&& new.resource_stats == old.resource_stats
    &&& new.nodes == old.nodes
    &&& new.resource_publishes == old.resource_publishes
    &&& new.purge_tasks == old.purge_tasks
    &&& new.delayed_purge_queue == old.delayed_purge_queue
    &&& new.request_history == old.request_history
}

/// The effect of creating a preheat task: the refusal of `preheat_refusal`
/// with nothing changed, or the task of `created_preheat` stored under
/// `task_id`, queued with the rank of its priority, its identifier returned,
/// and the audit entry `log_id` recorded.
pub open spec fn create_preheat_outcome(
    old: AppState,
    new: AppState,
    req: CreatePreheatRequest,
    task_id: u128,
    log_id: u128,
    now: i128,
    r: Result<u128, ApiError>,
) -> bool {
    match preheat_refusal(old, req) {
        Some(msg) => refused(r, ErrorKind::BadRequest, msg) && new.same(&old),
        None => {
            &&& r matches Ok(id) && id == task_id
            &&& preheat_views(new.preheat_tasks@) == upserted(
                preheat_views(old.preheat_tasks@),
                preheat_ids(old.preheat_tasks@),
                task_id,
                created_preheat(old, req, task_id, now),
            )
            &&& preheat_entries(new.preheat_queue) == preheat_entries(old.preheat_queue).insert(
                task_id,
                priority_rank(priority_named(opt_text_view(req.priority))),
            )
            &&& log_views(new.audit_logs@) == log_views(old.audit_logs@).push(
                audit_entry(log_id, req.created_by@, "create_preheat"@, uuid_text(task_id), preheat_scope(req), now, "success"@),
            )
            &&& same_but_preheat(new, old)
        },
    }
}

impl AppState {
    /// Stores preheat task `t`, replacing the stored task with its identifier.
    pub fn put_preheat_task(&mut self, t: PreheatTask)
        requires
            old(self).wf(),
        ensures
            final(self).wf(),
            preheat_views(final(self).preheat_tasks@)
                == upserted(preheat_views(old(self).preheat_tasks@), preheat_ids(old(self).preheat_tasks@), t.task_id, t@),
            same_but_preheat(*final(self), *old(self)),
            final(self).preheat_queue == old(self).preheat_queue,
            final(self).audit_logs == old(self).audit_logs,
    {
        let ghost ids = preheat_ids(old(self).preheat_tasks@);
        let id = t.task_id;
        match self.preheat_pos(id) {
            Some(i) => {
                proof {
                    assert(preheat_ids(old(self).preheat_tasks@)[i as int] == id);
                    assert(0 <= i < ids.len() && ids[i as int] == id);
                    let k = choose|k: int| 0 <= k < ids.len() && ids[k] == id;
                    if k != i {
                        assert(ids[k] == ids[i as int]);
                        assert(false);
                    }
                }
                let ghost before = self.preheat_tasks@;
                self.preheat_tasks.set(i, t);
                proof {
                    assert(preheat_views(self.preheat_tasks@) =~= preheat_views(before).update(i as int, t@));
                    assert(preheat_ids(self.preheat_tasks@) =~= preheat_ids(before));
                }
            },
            None => {
                let ghost before = self.preheat_tasks@;
                self.preheat_tasks.push(t);
                proof {
                    assert(!(exists|k: int| 0 <= k < ids.len() && ids[k] == id));
                    assert(preheat_views(self.preheat_tasks@) =~= preheat_views(before).push(t@));
                    assert(preheat_ids(self.preheat_tasks@) =~= preheat_ids(before).push(id));
                }
            },
        }
    }

    /// Queues preheat task `id` with rank `rank`.
    fn queue_preheat(&mut self, id: u128, rank: u8)
        requires
            old(self).wf(),
        ensures
            final(self).wf(),
            preheat_entries(final(self).preheat_queue) == preheat_entries(old(self).preheat_queue).insert(id, rank),
            same_but_preheat(*final(self), *old(self)),
            final(self).preheat_tasks == old(self).preheat_tasks,
            final(self).audit_logs == old(self).audit_logs,
    {
        preheat_queue_push(&mut self.preheat_queue, id, rank);
    }

    /// The total size of the stored resources that `rids` lists, or `None`
    /// when it exceeds `u64`.
    pub fn size_sum(&self, rids: &Vec<u128>) -> (r: Option<u64>)
        requires
            self.wf(),
        ensures
            match r {
                Some(s) => s == sizes_of(self.resources@, rids@),
                None => sizes_of(self.resources@, rids@) > u64::MAX,
            },
    {
        let mut sum: u64 = 0;
        let mut i: usize = 0;
        while i < rids.len()
            invariant
                self.wf(),
                0 <= i <= rids@.len(),
                sum == sizes_of(self.resources@, rids@.take(i as int)),
            decreases rids@.len() - i,
        {
            assert(rids@.take(i + 1).drop_last() =~= rids@.take(i as int));
            let size: u64 = match self.resource_pos(rids[i]) {
                Some(pos) => {
                    proof { self.lemma_resource_at(pos as int); }
                    self.resources[pos].size_bytes
                },
                None => 0,
            };
            match sum.checked_add(size) {
                Some(s) => sum = s,
                None => {
                    proof { lemma_sizes_prefix(self.resources@, rids@, i + 1); }
                    return None;
                },
            }
            i += 1;
        }
        assert(rids@.take(rids@.len() as int) =~= rids@);
        Some(sum)
    }

    /// Checks a preheat request: `None` when it is accepted, else the refusal
    /// that `preheat_refusal` says.
    pub fn validate_preheat_request(&self, req: &CreatePreheatRequest) -> (r: Option<ApiError>)
        requires
            self.wf(),
        ensures
            match preheat_refusal(*self, *req) {
                Some(msg) => r matches Some(e) && e.kind == ErrorKind::BadRequest && e.message@ == msg,
                None => r is None,
            },
    {
        if req.resource_ids.len() == 0 {
            return Some(ApiError { kind: ErrorKind::BadRequest, message: crate::text::owned("No resources specified") });
        }
        if req.node_ids.len() == 0 {
            return Some(ApiError { kind: ErrorKind::BadRequest, message: crate::text::owned("No nodes specified") });
        }
        if let Some(id) = self.find_unknown_resource(&req.resource_ids) {
            return Some(ApiError { kind: ErrorKind::BadRequest, message: not_found_message("Resource ", id) });
        }
        if let Some(id) = self.find_unknown_node(&req.node_ids) {
            return Some(ApiError { kind: ErrorKind::BadRequest, message: not_found_message("Node ", id) });
        }
        None
    }

    /// Creates a preheat task with identifier `task_id` at `now`, queues it
    /// with the rank of its priority and records audit entry `log_id`
    /// (see `create_preheat_outcome`).
    pub fn create_preheat_task_at(
        &mut self,
        req: &CreatePreheatRequest,
        task_id: u128,
        log_id: u128,
        now: i128,
    ) -> (r: Result<u128, ApiError>)
        requires
            old(self).wf(),
            preheat_refusal(*old(self), *req) is None ==> preheat_computable(*old(self), *req),
        ensures
            final(self).wf(),
            create_preheat_outcome(*old(self), *final(self), *req, task_id, log_id, now, r),
    {
        if let Some(e) = self.validate_preheat_request(req) {
            return Err(e);
        }
        let priority = match &req.priority {
            Some(p) => parse_priority(Some(p.as_str())),
            None => parse_priority(None),
        };
        assert(priority == priority_named(opt_text_view(req.priority)));
        let rn = req.resource_ids.len();
        let nn = req.node_ids.len();
        let total: u64 = (rn as u64) * (nn as u64);
        let size = match self.size_sum(&req.resource_ids) {
            Some(s) => s,
            None => 0,
        };
        let estimated = estimate_secs(size);
        let task = PreheatTask {
            task_id,
            resource_ids: copy_ids(&req.resource_ids),
            node_ids: copy_ids(&req.node_ids),
            status: TaskStatus::Pending,
            priority,
            total,
            done: 0,
            failed: 0,
            failed_resources: Vec::new(),
            started_at: None,
            finished_at: None,
            created_by: req.created_by.clone(),
            estimated_duration_secs: estimated,
            created_at: now,
        };
        assert(task.failed_resources@ =~= Seq::<u128>::empty());
        assert(task@ == created_preheat(*old(self), *req, task_id, now));
        self.put_preheat_task(task);
        self.queue_preheat(task_id, rank_of(priority));
        let target = id_text(task_id);
        let a = decimal_text(rn as u64);
        let b = concat(a.as_str(), " resources, ");
        let c = decimal_text(nn as u64);
        let d = concat(b.as_str(), c.as_str());
        let scope = concat(d.as_str(), " nodes");
        assert(scope@ == preheat_scope(*req));
        self.log_audit_at(req.created_by.as_str(), "create_preheat", target.as_str(), scope.as_str(), "success", log_id, now);
        Ok(task_id)
    }

    /// Creates a preheat task now, with fresh identifiers. `None` exactly where
    /// the request is accepted but its pair count or total size exceeds `u64`;
    /// nothing changes then.
    pub fn create_preheat_task(&mut self, req: &CreatePreheatRequest) -> (r: Option<Result<u128, ApiError>>)
        requires
            old(self).wf(),
        ensures
            final(self).wf(),
            r matches Some(res) ==> exists|task_id: u128, log_id: u128, now: i128|
                #[trigger] create_preheat_outcome(*old(self), *final(self), *req, task_id, log_id, now, res),
            r is None <==> (preheat_refusal(*old(self), *req) is None && !preheat_computable(*old(self), *req)),
            r is None ==> final(self).same(&*old(self)),
    {
        let task_id = new_id();
        let log_id = new_id();
        let now = now_nanos();
        if self.validate_preheat_request(req).is_none() {
            let rn = req.resource_ids.len() as u64;
            let nn = req.node_ids.len() as u64;
            if rn.checked_mul(nn).is_none() {
                return None;
            }
            if self.size_sum(&req.resource_ids).is_none() {
                return None;
            }
        }
        let res = self.create_preheat_task_at(req, task_id, log_id, now);
        Some(res)
    }
}

/// A preheat task with identifier `id` is stored in `s`.
pub open spec fn has_preheat(s: Seq<PreheatTask>, id: u128) -> bool {
    exists|i: int| 0 <= i < s.len() && s[i].task_id == id
}

/// The position of preheat task `id` in `s` (meaningful when it is stored).
pub open spec fn preheat_index(s: Seq<PreheatTask>, id: u128) -> int {
    choose|i: int| 0 <= i < s.len() && s[i].task_id == id
}

/// A task in this state is over: done, failed or cancelled.
pub open spec fn is_finished(s: TaskStatus) -> bool {
    s == TaskStatus::Done || s == TaskStatus::Failed || s == TaskStatus::Cancelled
}

/// The effect of cancelling preheat task `id` (see `cancel_preheat_task_at`).
pub open spec fn cancel_preheat_outcome(
    old: AppState,
    new: AppState,
    id: u128,
    log_id: u128,
    now: i128,
    r: Result<bool, ApiError>,
) -> bool {
    if !has_preheat(old.preheat_tasks@, id) {
        refused(r, ErrorKind::NotFound, "Task not found"@) && new.same(&old)
    } else {
        let i = preheat_index(old.preheat_tasks@, id);
        if is_finished(old.preheat_tasks@[i].status) {
            refused(r, ErrorKind::BadRequest, "Task already finished"@) && new.same(&old)
        } else {
            &&& r == Ok::<bool, ApiError>(true)
            &&& preheat_views(new.preheat_tasks@) == preheat_views(old.preheat_tasks@).update(
                i,
                PreheatTaskView { status: TaskStatus::Cancelled, finished_at: Some(now), ..old.preheat_tasks@[i]@ },
            )
            &&& log_views(new.audit_logs@) == log_views(old.audit_logs@).push(
                audit_entry(log_id, "system"@, "cancel_preheat"@, uuid_text(id), Seq::empty(), now, "success"@),
            )
            &&& new.preheat_queue == old.preheat_queue
            &&& same_but_preheat(new, old)
        }
    }
}

/// The task that retries the failed resources of task `t` on its nodes.
pub open spec fn retried_preheat(t: PreheatTaskView, id: u128, now: i128) -> PreheatTaskView {
    PreheatTaskView {
        task_id: id,
        resource_ids: t.failed_resources,
        node_ids: t.node_ids,
        status: TaskStatus::Pending,
        priority: t.priority,
        total: (t.failed_resources.len() * t.node_ids.len()) as u64,
        done: 0,
        failed: 0,
        failed_resources: Seq::empty(),
        started_at: None,
        finished_at: None,
        created_by: t.created_by,
        estimated_duration_secs: t.estimated_duration_secs,
        created_at: now,
    }
}

/// The pair count of a retry of task `t` fits in `u64`.
pub open spec fn retry_computable(t: PreheatTaskView) -> bool {
    t.failed_resources.len() * t.node_ids.len() <= u64::MAX
}

/// Retrying preheat task `id` from `old` into `new` at the instant `now` read
/// from the clock, with fresh identifiers `new_id` and `log_id`: the instant
/// is representable; the answer is `None`, with nothing changed, exactly where
/// the task is stored and its retry's pair count exceeds `u64`; otherwise it
/// is the answer of `retry_preheat_outcome`.
pub open spec fn retry_preheat_now(
    old: AppState,
    new: AppState,
    id: u128,
    new_id: u128,
    log_id: u128,
    now: i128,
    r: Option<Result<u128, ApiError>>,
) -> bool {
    &&& representable(now as int)
    &&& (r is None <==> (has_preheat(old.preheat_tasks@, id)
        && !retry_computable(old.preheat_tasks@[preheat_index(old.preheat_tasks@, id)]@)))
    &&& r is None ==> new.same(&old)
    &&& r matches Some(res) ==> retry_preheat_outcome(old, new, id, new_id, log_id, now, res)
}

/// The effect of retrying preheat task `id` as task `new_id` (see `retry_preheat_task_at`).
pub open spec fn retry_preheat_outcome(
    old: AppState,
    new: AppState,
    id: u128,
    new_id: u128,
    log_id: u128,
    now: i128,
    r: Result<u128, ApiError>,
) -> bool {
    if !has_preheat(old.preheat_tasks@, id) {
        refused(r, ErrorKind::NotFound, "Task not found"@) && new.same(&old)
    } else {
        let t = old.preheat_tasks@[preheat_index(old.preheat_tasks@, id)]@;
        if t.failed_resources.len() == 0 {
            refused(r, ErrorKind::BadRequest, "No failed resources to retry"@) && new.same(&old)
        } else {
            &&& r matches Ok(n) && n == new_id
            &&& preheat_views(new.preheat_tasks@) == upserted(
                preheat_views(old.preheat_tasks@),
                preheat_ids(old.preheat_tasks@),
                new_id,
                retried_preheat(t, new_id, now),
            )
            &&& preheat_entries(new.preheat_queue) == preheat_entries(old.preheat_queue).insert(
                new_id,
                priority_rank(TaskPriority::High),
            )
            &&& log_views(new.audit_logs@) == log_views(old.audit_logs@).push(
                audit_entry(log_id, t.created_by, "retry_preheat"@, uuid_text(new_id), "retry of "@ + uuid_text(id), now, "success"@),
            )
            &&& same_but_preheat(new, old)
        }
    }
}

/// The task has the status the query asks for, where it asks for one.
pub open spec fn preheat_selected(t: PreheatTask, status: Option<TaskStatus>) -> bool {
    status matches Some(s) ==> t.status == s
}

/// The creation times of a list of preheat tasks, as sort keys.
pub open spec fn preheat_times(s: Seq<PreheatTask>) -> Seq<i128> {
    s.map_values(|t: PreheatTask| t.created_at)
}

/// The query names an unknown status.
pub open spec fn bad_task_status(s: Option<Seq<char>>) -> bool {
    s matches Some(t) && task_status_named(t) is None
}

/// The query's status, where it names a known one.
pub open spec fn task_status_filter(s: Option<Seq<char>>) -> Option<TaskStatus> {
    match s { Some(t) => task_status_named(t), None => None }
}

impl AppState {
    /// The only position of preheat task `id`.
    proof fn lemma_preheat_index(&self, id: u128, i: int)
        requires
            self.wf(),
            0 <= i < self.preheat_tasks@.len(),
            self.preheat_tasks@[i].task_id == id,
        ensures
            has_preheat(self.preheat_tasks@, id),
            preheat_index(self.preheat_tasks@, id) == i,
    {
        let k = choose|k: int| 0 <= k < self.preheat_tasks@.len() && self.preheat_tasks@[k].task_id == id;
        if k != i {
            assert(preheat_ids(self.preheat_tasks@)[k] == preheat_ids(self.preheat_tasks@)[i]);
        }
    }

    /// Sets the preheat task at position `i` to `t`, which keeps its identifier.
    fn set_preheat(&mut self, i: usize, t: PreheatTask)
        requires
            old(self).wf(),
            i < old(self).preheat_tasks@.len(),
            t.task_id == old(self).preheat_tasks@[i as int].task_id,
        ensures
            final(self).wf(),
            preheat_views(final(self).preheat_tasks@) == preheat_views(old(self).preheat_tasks@).update(i as int, t@),
            same_but_preheat(*final(self), *old(self)),
            final(self).preheat_queue == old(self).preheat_queue,
            final(self).audit_logs == old(self).audit_logs,
    {
        let ghost before = self.preheat_tasks@;
        self.preheat_tasks.set(i, t);
        proof {
            assert(preheat_views(self.preheat_tasks@) =~= preheat_views(before).update(i as int, t@));
            assert(preheat_ids(self.preheat_tasks@) =~= preheat_ids(before));
        }
    }

    /// The preheat task `task_id`, or "Task not found".
    pub fn get_preheat_task(&self, task_id: u128) -> (r: Result<PreheatTask, ApiError>)
        requires
            self.wf(),
        ensures
            match r {
                Ok(t) => has_preheat(self.preheat_tasks@, task_id)
                    && t@ == self.preheat_tasks@[preheat_index(self.preheat_tasks@, task_id)]@,
                Err(_) => refused(r, ErrorKind::NotFound, "Task not found"@) && !has_preheat(self.preheat_tasks@, task_id),
            },
    {
        match self.preheat_pos(task_id) {
            Some(i) => {
                proof { self.lemma_preheat_index(task_id, i as int); }
                Ok(self.preheat_tasks[i].duplicate())
            },
            None => refuse(ErrorKind::NotFound, "Task not found"),
        }
    }

    /// Cancels preheat task `id` at `now`, recording audit entry `log_id`: a
    /// task that is not over becomes cancelled and finished at `now`. An
    /// unknown task is refused with "Task not found", one that is done,
    /// failed or cancelled with "Task already finished".
    pub fn cancel_preheat_task_at(&mut self, id: u128, log_id: u128, now: i128) -> (r: Result<bool, ApiError>)
        requires
            old(self).wf(),
        ensures
            final(self).wf(),
            cancel_preheat_outcome(*old(self), *final(self), id, log_id, now, r),
    {
        let i = match self.preheat_pos(id) {
            Some(i) => i,
            None => return refuse(ErrorKind::NotFound, "Task not found"),
        };
        proof { self.lemma_preheat_index(id, i as int); }
        let st = self.preheat_tasks[i].status;
        if st == TaskStatus::Done || st == TaskStatus::Failed || st == TaskStatus::Cancelled {
            return refuse(ErrorKind::BadRequest, "Task already finished");
        }
        let mut t = self.preheat_tasks[i].duplicate();
        t.status = TaskStatus::Cancelled;
        t.finished_at = Some(now);
        self.set_preheat(i, t);
        let target = id_text(id);
        self.log_audit_at("system", "cancel_preheat", target.as_str(), "", "success", log_id, now);
        proof {
            reveal_strlit("");
            assert(""@ =~= Seq::<char>::empty());
        }
        Ok(true)
    }

    /// Cancels preheat task `id` now (see `cancel_preheat_task_at`).
    pub fn cancel_preheat_task(&mut self, id: u128) -> (r: Result<bool, ApiError>)
        requires
            old(self).wf(),
        ensures
            final(self).wf(),
            exists|log_id: u128, now: i128| #[trigger] cancel_preheat_outcome(*old(self), *final(self), id, log_id, now, r),
    {
        let log_id = new_id();
        let now = now_nanos();
        self.cancel_preheat_task_at(id, log_id, now)
    }

    /// Retries the failed resources of preheat task `id` on its nodes as a new
    /// task `new_id` created at `now`, queued at high priority, recording
    /// audit entry `log_id` (see `retry_preheat_outcome`).
    pub fn retry_preheat_task_at(&mut self, id: u128, new_id: u128, log_id: u128, now: i128) -> (r: Result<u128, ApiError>)
        requires
            old(self).wf(),
            has_preheat(old(self).preheat_tasks@, id)
                ==> retry_computable(old(self).preheat_tasks@[preheat_index(old(self).preheat_tasks@, id)]@),
        ensures
            final(self).wf(),
            retry_preheat_outcome(*old(self), *final(self), id, new_id, log_id, now, r),
    {
        let i = match self.preheat_pos(id) {
            Some(i) => i,
            None => return refuse(ErrorKind::NotFound, "Task not found"),
        };
        proof { self.lemma_preheat_index(id, i as int); }
        let t = self.preheat_tasks[i].duplicate();
        if t.failed_resources.len() == 0 {
            return refuse(ErrorKind::BadRequest, "No failed resources to retry");
        }
        let total: u64 = (t.failed_resources.len() as u64) * (t.node_ids.len() as u64);
        let task = PreheatTask {
            task_id: new_id,
            resource_ids: copy_ids(&t.failed_resources),
            node_ids: copy_ids(&t.node_ids),
            status: TaskStatus::Pending,
            priority: t.priority,
            total,
            done: 0,
            failed: 0,
            failed_resources: Vec::new(),
            started_at: None,
            finished_at: None,
            created_by: t.created_by.clone(),
            estimated_duration_secs: t.estimated_duration_secs,
            created_at: now,
        };
        assert(task.failed_resources@ =~= Seq::<u128>::empty());
        assert(task@ == retried_preheat(t@, new_id, now));
        self.put_preheat_task(task);
        self.queue_preheat(new_id, rank_of(TaskPriority::High));
        let target = id_text(new_id);
        let old_text = id_text(id);
        let scope = concat("retry of ", old_text.as_str());
        self.log_audit_at(t.created_by.as_str(), "retry_preheat", target.as_str(), scope.as_str(), "success", log_id, now);
        Ok(new_id)
    }

    /// Retries preheat task `id` now, with fresh identifiers (see
    /// `retry_preheat_now`). `None` exactly where the task exists and its
    /// retry's pair count exceeds `u64`; nothing changes then.
    pub fn retry_preheat_task(&mut self, id: u128) -> (r: Option<Result<u128, ApiError>>)
        requires
            old(self).wf(),
        ensures
            final(self).wf(),
            exists|new_id: u128, log_id: u128, now: i128|
                #[trigger] retry_preheat_now(*old(self), *final(self), id, new_id, log_id, now, r),
            r is None ==> final(self).same(&*old(self)),
    {
        let retry_id = new_id();
        let log_id = new_id();
        let now = now_nanos();
        if let Some(i) = self.preheat_pos(id) {
            proof { self.lemma_preheat_index(id, i as int); }
            let fl = self.preheat_tasks[i].failed_resources.len() as u64;
            let nl = self.preheat_tasks[i].node_ids.len() as u64;
            if fl.checked_mul(nl).is_none() {
                assert(retry_preheat_now(*old(self), *self, id, retry_id, log_id, now, None));
                return None;
            }
        }
        let res = self.retry_preheat_task_at(id, retry_id, log_id, now);
        assert(retry_preheat_now(*old(self), *self, id, retry_id, log_id, now, Some(res)));
        Some(res)
    }

    /// The preheat tasks the query selects, newest first (equal creation times
    /// in the order stored), cut to the page it asks for (20 by default, at
    /// most 100). An unknown status is refused with "Invalid status".
    pub fn list_preheat_tasks(&self, query: &PreheatTaskQuery) -> (r: Result<PagedResult<PreheatTask>, ApiError>)
        requires
            self.wf(),
            !bad_task_status(opt_view(query.status))
                ==> page_in_range(query_page(query.page), query_page_size(query.page_size, 20, 100)),
        ensures
            if bad_task_status(opt_view(query.status)) {
                refused(r, ErrorKind::BadRequest, "Invalid status"@)
            } else {
                r matches Ok(p) && {
                    let f = self.preheat_tasks@.filter(
                        |t: PreheatTask| preheat_selected(t, task_status_filter(opt_view(query.status))),
                    );
                    &&& p.total == f.len()
                    &&& p.page == query_page(query.page)
                    &&& p.page_size == query_page_size(query.page_size, 20, 100)
                    &&& exists|order: Seq<usize>| is_desc_order(order, preheat_times(f))
                        && preheat_views(p.items@) == page_window(preheat_views(arrange(f, order)), p.page, p.page_size)
                }
            },
    {
        let page = match query.page { Some(p) => p, None => 1 };
        let page_size = page_size_of(query.page_size, 20, 100);
        let status = match &query.status {
            Some(s) => match parse_task_status(s.as_str()) {
                Some(st) => Some(st),
                None => return refuse(ErrorKind::BadRequest, "Invalid status"),
            },
            None => None,
        };
        assert(status == task_status_filter(opt_view(query.status)));
        let ghost pred = |t: PreheatTask| preheat_selected(t, status);
        let mut f: Vec<PreheatTask> = Vec::new();
        let n = self.preheat_tasks.len();
        let mut i: usize = 0;
        while i < n
            invariant
                n == self.preheat_tasks@.len(),
                0 <= i <= n,
                pred == (|t: PreheatTask| preheat_selected(t, status)),
                preheat_views(f@) == preheat_views(self.preheat_tasks@.take(i as int).filter(pred)),
                f@.len() == self.preheat_tasks@.take(i as int).filter(pred).len(),
            decreases n - i,
        {
            proof { crate::store::lemma_filter_map_step(self.preheat_tasks@, i as int, pred, |t: PreheatTask| t@); }
            let t = &self.preheat_tasks[i];
            let ok = match status { Some(st) => t.status == st, None => true };
            if ok {
                let ghost before = f@;
                f.push(t.duplicate());
                assert(preheat_views(f@) =~= preheat_views(before).push(t@));
            }
            i += 1;
        }
        assert(self.preheat_tasks@.take(n as int) =~= self.preheat_tasks@);
        let ghost fs = self.preheat_tasks@.filter(pred);
        assert(preheat_views(f@) == preheat_views(fs));
        let mut keys: Vec<i128> = Vec::new();
        let mut k: usize = 0;
        while k < f.len()
            invariant
                0 <= k <= f@.len(),
                f@.len() == fs.len(),
                preheat_views(f@) == preheat_views(fs),
                keys@ == preheat_times(fs).take(k as int),
            decreases f@.len() - k,
        {
            assert(preheat_views(f@)[k as int] == preheat_views(fs)[k as int]);
            keys.push(f[k].created_at);
            assert(keys@ =~= preheat_times(fs).take(k + 1));
            k += 1;
        }
        assert(keys@ =~= preheat_times(fs));
        let order = desc_order(&keys);
        let (lo, hi) = page_bounds(f.len(), page, page_size);
        let mut items: Vec<PreheatTask> = Vec::new();
        let mut j: usize = lo;
        while j < hi
            invariant
                lo <= j <= hi <= f@.len(),
                is_desc_order(order@, preheat_times(fs)),
                f@.len() == fs.len(),
                preheat_views(f@) == preheat_views(fs),
                preheat_views(items@) == preheat_views(arrange(fs, order@)).subrange(lo as int, j as int),
            decreases hi - j,
        {
            let pos = order[j];
            let ghost before = items@;
            assert(preheat_views(f@)[pos as int] == preheat_views(fs)[pos as int]);
            items.push(f[pos].duplicate());
            assert(preheat_views(items@) =~= preheat_views(before).push(fs[pos as int]@));
            assert(preheat_views(items@) =~= preheat_views(arrange(fs, order@)).subrange(lo as int, j + 1));
            j += 1;
        }
        let total = f.len() as u64;
        Ok(PagedResult { items, total, page, page_size })
    }
}

/// `id` waits in the queue `q` under the least rank there.
pub open spec fn least_ranked(q: Map<u128, u8>, id: u128) -> bool {
    &&& q.contains_key(id)
    &&& forall|k: u128| #[trigger] q.contains_key(k) ==> q[id] <= q[k]
}

/// Task `id` is stored and not cancelled, so taking it from the queue starts it.
pub open spec fn startable(s: Seq<PreheatTask>, id: u128) -> bool {
    has_preheat(s, id) && s[preheat_index(s, id)].status != TaskStatus::Cancelled
}

/// The effect of taking the next task from the preheat queue at `now`
/// (see `start_next_preheat_at`).
pub open spec fn start_outcome(old: AppState, new: AppState, now: i128, r: Option<u128>) -> bool {
    if preheat_entries(old.preheat_queue).dom().is_empty() {
        &&& r is None
        &&& preheat_entries(new.preheat_queue) == preheat_entries(old.preheat_queue)
        &&& new.preheat_tasks == old.preheat_tasks
        &&& new.audit_logs == old.audit_logs
        &&& same_but_preheat(new, old)
    } else {
        exists|id: u128| #[trigger] least_ranked(preheat_entries(old.preheat_queue), id) && {
            &&& preheat_entries(new.preheat_queue) == preheat_entries(old.preheat_queue).remove(id)
            &&& if startable(old.preheat_tasks@, id) {
                let i = preheat_index(old.preheat_tasks@, id);
                &&& r == Some(id)
                &&& preheat_views(new.preheat_tasks@) == preheat_views(old.preheat_tasks@).update(
                    i,
                    PreheatTaskView { status: TaskStatus::Running, started_at: Some(now), ..old.preheat_tasks@[i]@ },
                )
            } else {
                r is None && new.preheat_tasks == old.preheat_tasks
            }
            &&& new.audit_logs == old.audit_logs
            &&& same_but_preheat(new, old)
        }
    }
}

/// The (resource, node) pairs a task works through: node by node, and on
/// each node its resources in order.
pub open spec fn preheat_pairs(rids: Seq<u128>, nids: Seq<u128>) -> Seq<(u128, u128)>
    decreases nids.len(),
{
    if nids.len() == 0 {
        Seq::empty()
    } else {
        preheat_pairs(rids, nids.drop_last()) + rids.map_values(|r: u128| (r, nids.last()))
    }
}

/// A task has one pair per resource and node.
pub proof fn lemma_pairs_len(rids: Seq<u128>, nids: Seq<u128>)
    ensures
        preheat_pairs(rids, nids).len() == rids.len() * nids.len(),
    decreases nids.len(),
{
    if nids.len() > 0 {
        lemma_pairs_len(rids, nids.drop_last());
        assert(rids.len() * nids.len() == rids.len() * (nids.len() - 1) + rids.len()) by (nonlinear_arith);
    }
}

/// The number of successful steps.
pub open spec fn successes(oks: Seq<bool>) -> nat
    decreases oks.len(),
{
    if oks.len() == 0 { 0 } else { successes(oks.drop_last()) + if oks.last() { 1nat } else { 0nat } }
}

/// There are no more successes than steps.
pub proof fn lemma_successes_bound(oks: Seq<bool>)
    ensures
        successes(oks) <= oks.len(),
    decreases oks.len(),
{
    if oks.len() > 0 {
        lemma_successes_bound(oks.drop_last());
    }
}

/// The resources of the failed steps, each once, in the order they first failed.
pub open spec fn failed_list(pairs: Seq<(u128, u128)>, oks: Seq<bool>) -> Seq<u128>
    decreases oks.len(),
{
    if oks.len() == 0 {
        Seq::empty()
    } else {
        let prev = failed_list(pairs, oks.drop_last());
        let rid = pairs[oks.len() - 1].0;
        if !oks.last() && !prev.contains(rid) { prev.push(rid) } else { prev }
    }
}

/// The status a finished run ends in: done when nothing failed, partial when
/// something failed and something succeeded, failed when nothing succeeded.
pub open spec fn final_status(done: u64, failed: u64) -> TaskStatus {
    if failed == 0 {
        TaskStatus::Done
    } else if done > 0 {
        TaskStatus::Partial
    } else {
        TaskStatus::Failed
    }
}

/// The status a finished run ends in (see `final_status`).
pub fn preheat_final_status(done: u64, failed: u64) -> (s: TaskStatus)
    ensures
        s == final_status(done, failed),
{
    if failed == 0 {
        TaskStatus::Done
    } else if done > 0 {
        TaskStatus::Partial
    } else {
        TaskStatus::Failed
    }
}

/// The progress of a running preheat task: the pairs it works through, the
/// outcome of each step taken so far, and the tallies the task reports.
pub struct PreheatRun {
    pub task_id: u128,
    pub pairs: Vec<(u128, u128)>,
    pub outcomes: Vec<bool>,
    pub done: u64,
    pub failed: u64,
    pub failed_resources: Vec<u128>,
}

impl PreheatRun {
    /// The tallies agree with the outcomes: `done` counts the successes,
    /// `failed` the failures, and `failed_resources` lists the resources of
    /// the failed steps, each once, in the order they first failed.
    pub open spec fn wf(&self) -> bool {
        &&& self.outcomes@.len() <= self.pairs@.len()
        &&& self.done == successes(self.outcomes@)
        &&& self.failed == self.outcomes@.len() - successes(self.outcomes@)
        &&& self.failed_resources@ == failed_list(self.pairs@, self.outcomes@)
    }

    /// The pair of the next step, or `None` when every pair has been worked through.
    pub fn next_pair(&self) -> (r: Option<(u128, u128)>)
        requires
            self.wf(),
        ensures
            match r {
                Some(p) => self.outcomes@.len() < self.pairs@.len() && p == self.pairs@[self.outcomes@.len() as int],
                None => self.outcomes@.len() == self.pairs@.len(),
            },
    {
        if self.outcomes.len() < self.pairs.len() {
            Some(self.pairs[self.outcomes.len()])
        } else {
            None
        }
    }

    /// Records the outcome of the next step.
    pub fn record(&mut self, ok: bool)
        requires
            old(self).wf(),
            old(self).outcomes@.len() < old(self).pairs@.len(),
        ensures
            final(self).wf(),
            final(self).outcomes@ == old(self).outcomes@.push(ok),
            final(self).pairs == old(self).pairs,
            final(self).task_id == old(self).task_id,
    {
        let ghost before = self.outcomes@;
        let k = self.outcomes.len();
        let n = self.pairs.len();
        let rid = self.pairs[k].0;
        proof { lemma_successes_bound(before); }
        assert(self.done + 1 <= n && self.failed + 1 <= n);
        assert(n <= u64::MAX);
        self.outcomes.push(ok);
        assert(self.outcomes@.drop_last() =~= before);
        if ok {
            self.done = self.done + 1;
        } else {
            self.failed = self.failed + 1;
            if !contains_id(&self.failed_resources, rid) {
                self.failed_resources.push(rid);
            }
        }
    }
}

/// The failed resources are listed once each, and each is the resource of a failed step.
pub proof fn lemma_failed_list(pairs: Seq<(u128, u128)>, oks: Seq<bool>)
    requires
        oks.len() <= pairs.len(),
    ensures
        distinct(failed_list(pairs, oks)),
        forall|r: u128| #[trigger] failed_list(pairs, oks).contains(r)
            ==> exists|k: int| 0 <= k < oks.len() && !oks[k] && pairs[k].0 == r,
        forall|k: int| 0 <= k < oks.len() && !oks[k] ==> failed_list(pairs, oks).contains(#[trigger] pairs[k].0),
    decreases oks.len(),
{
    if oks.len() > 0 {
        let d = oks.drop_last();
        lemma_failed_list(pairs, d);
        let prev = failed_list(pairs, d);
        let n = oks.len() - 1;
        let rid = pairs[n].0;
        assert forall|r: u128| #[trigger] failed_list(pairs, oks).contains(r)
            implies exists|k: int| 0 <= k < oks.len() && !oks[k] && pairs[k].0 == r by {
            if prev.contains(r) {
                let k = choose|k: int| 0 <= k < d.len() && !d[k] && pairs[k].0 == r;
                assert(oks[k] == d[k]);
            } else {
                let j = choose|j: int| 0 <= j < failed_list(pairs, oks).len() && failed_list(pairs, oks)[j] == r;
                assert(j == prev.len());
                assert(!oks[n] && pairs[n].0 == r);
            }
        }
        assert forall|k: int| 0 <= k < oks.len() && !oks[k] implies failed_list(pairs, oks).contains(#[trigger] pairs[k].0) by {
            if k < n {
                assert(d[k] == oks[k]);
                assert(prev.contains(pairs[k].0));
                let j = choose|j: int| 0 <= j < prev.len() && prev[j] == pairs[k].0;
                assert(failed_list(pairs, oks)[j] == pairs[k].0);
            } else {
                if !prev.contains(rid) {
                    assert(failed_list(pairs, oks)[prev.len() as int] == rid);
                }
            }
        }
        if !oks.last() && !prev.contains(rid) {
            assert forall|i: int, j: int| 0 <= i < j < prev.push(rid).len()
                implies prev.push(rid)[i] != prev.push(rid)[j] by {
                if j == prev.len() {
                    assert(prev.contains(prev[i]));
                }
            }
        }
    }
}

/// When a run has worked through every pair of its task, its successes and
/// failures add up to the task's total, and its failed resources are listed
/// once each, every one of them a resource of the task.
pub proof fn preheat_run_accounts(run: PreheatRun, t: PreheatTaskView)
    requires
        run.wf(),
        run.pairs@ == preheat_pairs(t.resource_ids, t.node_ids),
        run.outcomes@.len() == run.pairs@.len(),
        t.total == t.resource_ids.len() * t.node_ids.len(),
    ensures
        run.done + run.failed == t.total,
        distinct(run.failed_resources@),
        forall|r: u128| #[trigger] run.failed_resources@.contains(r) ==> t.resource_ids.contains(r),
{
    lemma_pairs_len(t.resource_ids, t.node_ids);
    lemma_successes_bound(run.outcomes@);
    lemma_failed_list(run.pairs@, run.outcomes@);
    assert forall|r: u128| #[trigger] run.failed_resources@.contains(r) implies t.resource_ids.contains(r) by {
        let k = choose|k: int| 0 <= k < run.outcomes@.len() && !run.outcomes@[k] && run.pairs@[k].0 == r;
        lemma_pair_resource(t.resource_ids, t.node_ids, k);
    }
}

/// Every pair of a task names one of its resources.
pub proof fn lemma_pair_resource(rids: Seq<u128>, nids: Seq<u128>, k: int)
    requires
        0 <= k < preheat_pairs(rids, nids).len(),
    ensures
        rids.contains(preheat_pairs(rids, nids)[k].0),
    decreases nids.len(),
{
    if nids.len() > 0 {
        let prev = preheat_pairs(rids, nids.drop_last());
        if k < prev.len() {
            lemma_pair_resource(rids, nids.drop_last(), k);
        } else {
            let j = k - prev.len();
            assert(preheat_pairs(rids, nids)[k] == (rids[j], nids.last()));
        }
    }
}

/// The pairs of the resources `rids` and nodes `nids`.
pub fn pairs_of(rids: &Vec<u128>, nids: &Vec<u128>) -> (v: Vec<(u128, u128)>)
    ensures
        v@ == preheat_pairs(rids@, nids@),
{
    let mut v: Vec<(u128, u128)> = Vec::new();
    let mut i: usize = 0;
    while i < nids.len()
        invariant
            0 <= i <= nids@.len(),
            v@ == preheat_pairs(rids@, nids@.take(i as int)),
        decreases nids@.len() - i,
    {
        let nid = nids[i];
        let ghost start = v@;
        let mut j: usize = 0;
        while j < rids.len()
            invariant
                0 <= j <= rids@.len(),
                nid == nids@[i as int],
                i < nids@.len(),
                start == preheat_pairs(rids@, nids@.take(i as int)),
                v@ == start + rids@.take(j as int).map_values(|r: u128| (r, nid)),
            decreases rids@.len() - j,
        {
            v.push((rids[j], nid));
            assert(rids@.take(j + 1).map_values(|r: u128| (r, nid))
                =~= rids@.take(j as int).map_values(|r: u128| (r, nid)).push((rids@[j as int], nid)));
            j += 1;
        }
        assert(rids@.take(rids@.len() as int) =~= rids@);
        assert(nids@.take(i + 1).drop_last() =~= nids@.take(i as int));
        i += 1;
    }
    assert(nids@.take(nids@.len() as int) =~= nids@);
    v
}

/// Node `nid` is stored and online and resource `rid` is stored, so a
/// preheat step of the pair reaches the node.
pub open spec fn preheat_reachable(st: AppState, rid: u128, nid: u128) -> bool {
    &&& has_node(st.nodes@, nid)
    &&& node_with(st.nodes@, nid).status == NodeStatus::Online
    &&& has_resource(st.resources@, rid)
}

/// The effect of one preheat step of resource `rid` on node `nid` at `now`,
/// where `lucky` is the outcome of the transfer: an unreachable pair fails
/// with nothing changed; a reachable one publishes the resource on the node,
/// counts a hit there, records the request, and succeeds when `lucky` holds.
pub open spec fn preheat_step_outcome(old: AppState, new: AppState, rid: u128, nid: u128, lucky: bool, now: i128, r: bool) -> bool {
    if !preheat_reachable(old, rid, nid) {
        !r && new.same(&old)
    } else {
        let s = stats_or_empty(old.resource_stats@, rid, nid);
        &&& r == lucky
        &&& new.resource_publishes@ == upserted(
            old.resource_publishes@,
            publish_keys(old.resource_publishes@),
            (rid, nid),
            ResourcePublish { resource_id: rid, node_id: nid, published_at: now },
        )
        &&& new.resource_stats@ == upserted(
            old.resource_stats@,
            stat_keys(old.resource_stats@),
            (rid, nid),
            StatEntry {
                resource_id: rid,
                node_id: nid,
                stats: crate::models::ResourceStats { hit_count: (s.hit_count + 1) as u64, last_accessed_at: Some(now), ..s },
            },
        )
        &&& new.request_history@ == old.request_history@.push(RequestRecord { at: now, hit: true, node_id: Some(nid) })
        &&& new.resources == old.resources
        &&& new.nodes == old.nodes
        &&& new.preheat_tasks == old.preheat_tasks
        &&& new.preheat_queue == old.preheat_queue
        &&& new.purge_tasks == old.purge_tasks
        &&& new.delayed_purge_queue == old.delayed_purge_queue
        &&& new.audit_logs == old.audit_logs
    }
}

impl AppState {
    /// Takes the next task from the preheat queue (one of least rank) and, if
    /// it is stored and not cancelled, marks it running since `now` and returns it.
    pub fn start_next_preheat_at(&mut self, now: i128) -> (r: Option<u128>)
        requires
            old(self).wf(),
        ensures
            final(self).wf(),
            start_outcome(*old(self), *final(self), now, r),
    {
        let popped = preheat_queue_pop(&mut self.preheat_queue);
        let id = match popped {
            None => return None,
            Some((id, _rank)) => id,
        };
        assert(least_ranked(preheat_entries(old(self).preheat_queue), id));
        assert(preheat_entries(self.preheat_queue).dom() =~= preheat_entries(old(self).preheat_queue).dom().remove(id));
        let i = match self.preheat_pos(id) {
            Some(i) => i,
            None => return None,
        };
        proof { self.lemma_preheat_index(id, i as int); }
        if self.preheat_tasks[i].status == TaskStatus::Cancelled {
            return None;
        }
        let mut t = self.preheat_tasks[i].duplicate();
        t.status = TaskStatus::Running;
        t.started_at = Some(now);
        self.set_preheat(i, t);
        Some(id)
    }

    /// Takes the next task from the preheat queue now (see `start_next_preheat_at`).
    pub fn start_next_preheat(&mut self) -> (r: Option<u128>)
        requires
            old(self).wf(),
        ensures
            final(self).wf(),
            exists|now: i128| #[trigger] start_outcome(*old(self), *final(self), now, r),
    {
        let now = now_nanos();
        self.start_next_preheat_at(now)
    }

    /// The run of stored preheat task `task_id`, before its first step; `None`
    /// when the task is not stored.
    pub fn begin_preheat_run(&self, task_id: u128) -> (r: Option<PreheatRun>)
        requires
            self.wf(),
        ensures
            match r {
                Some(run) => {
                    &&& has_preheat(self.preheat_tasks@, task_id)
                    &&& run.wf()
                    &&& run.task_id == task_id
                    &&& run.outcomes@.len() == 0
                    &&& run.pairs@ == preheat_pairs(
                        self.preheat_tasks@[preheat_index(self.preheat_tasks@, task_id)].resource_ids@,
                        self.preheat_tasks@[preheat_index(self.preheat_tasks@, task_id)].node_ids@,
                    )
                },
                None => !has_preheat(self.preheat_tasks@, task_id),
            },
    {
        let i = match self.preheat_pos(task_id) {
            Some(i) => i,
            None => return None,
        };
        proof { self.lemma_preheat_index(task_id, i as int); }
        let pairs = pairs_of(&self.preheat_tasks[i].resource_ids, &self.preheat_tasks[i].node_ids);
        let run = PreheatRun { task_id, pairs, outcomes: Vec::new(), done: 0, failed: 0, failed_resources: Vec::new() };
        assert(run.failed_resources@ =~= failed_list(run.pairs@, run.outcomes@));
        Some(run)
    }

    /// Preheat task `task_id` is gone or cancelled, so its run stops.
    pub fn preheat_cancelled(&self, task_id: u128) -> (r: bool)
        requires
            self.wf(),
        ensures
            r == !startable(self.preheat_tasks@, task_id),
    {
        match self.preheat_pos(task_id) {
            Some(i) => {
                proof { self.lemma_preheat_index(task_id, i as int); }
                self.preheat_tasks[i].status == TaskStatus::Cancelled
            },
            None => true,
        }
    }

    /// One preheat step of resource `rid` on node `nid` at `now`, where
    /// `lucky` is the outcome of the transfer (see `preheat_step_outcome`).
    pub fn simulate_preheat_one_at(&mut self, rid: u128, nid: u128, lucky: bool, now: i128) -> (r: bool)
        requires
            old(self).wf(),
            preheat_reachable(*old(self), rid, nid)
                ==> stats_or_empty(old(self).resource_stats@, rid, nid).hit_count < u64::MAX,
        ensures
            final(self).wf(),
            preheat_step_outcome(*old(self), *final(self), rid, nid, lucky, now, r),
    {
        let ni = match self.node_pos(nid) {
            Some(ni) => ni,
            None => return false,
        };
        proof { self.lemma_node_at(ni as int); }
        if self.nodes[ni].status != NodeStatus::Online {
            return false;
        }
        if self.resource_pos(rid).is_none() {
            return false;
        }
        self.put_publish(ResourcePublish { resource_id: rid, node_id: nid, published_at: now });
        let s = self.stats_or_default(rid, nid);
        let mut ns = s;
        ns.hit_count = s.hit_count + 1;
        ns.last_accessed_at = Some(now);
        self.put_stat(StatEntry { resource_id: rid, node_id: nid, stats: ns });
        self.request_history.push(RequestRecord { at: now, hit: true, node_id: Some(nid) });
        lucky
    }

    /// Reports the tallies of `run` on its task, if the task is still stored.
    pub fn record_preheat_progress(&mut self, run: &PreheatRun)
        requires
            old(self).wf(),
        ensures
            final(self).wf(),
            if has_preheat(old(self).preheat_tasks@, run.task_id) {
                let i = preheat_index(old(self).preheat_tasks@, run.task_id);
                preheat_views(final(self).preheat_tasks@) == preheat_views(old(self).preheat_tasks@).update(
                    i,
                    PreheatTaskView {
                        done: run.done,
                        failed: run.failed,
                        failed_resources: run.failed_resources@,
                        ..old(self).preheat_tasks@[i]@
                    },
                )
            } else {
                final(self).preheat_tasks == old(self).preheat_tasks
            },
            final(self).preheat_queue == old(self).preheat_queue,
            final(self).audit_logs == old(self).audit_logs,
            same_but_preheat(*final(self), *old(self)),
    {
        let i = match self.preheat_pos(run.task_id) {
            Some(i) => i,
            None => return,
        };
        proof { self.lemma_preheat_index(run.task_id, i as int); }
        let mut t = self.preheat_tasks[i].duplicate();
        t.done = run.done;
        t.failed = run.failed;
        t.failed_resources = copy_ids(&run.failed_resources);
        self.set_preheat(i, t);
    }

    /// Ends the run of `run.task_id` at `now`: the task, if still stored,
    /// takes the status `final_status` gives its tallies and is finished at `now`.
    pub fn finish_preheat_at(&mut self, run: &PreheatRun, now: i128)
        requires
            old(self).wf(),
        ensures
            final(self).wf(),
            if has_preheat(old(self).preheat_tasks@, run.task_id) {
                let i = preheat_index(old(self).preheat_tasks@, run.task_id);
                preheat_views(final(self).preheat_tasks@) == preheat_views(old(self).preheat_tasks@).update(
                    i,
                    PreheatTaskView {
                        status: final_status(run.done, run.failed),
                        finished_at: Some(now),
                        ..old(self).preheat_tasks@[i]@
                    },
                )
            } else {
                final(self).preheat_tasks == old(self).preheat_tasks
            },
            final(self).preheat_queue == old(self).preheat_queue,
            final(self).audit_logs == old(self).audit_logs,
            same_but_preheat(*final(self), *old(self)),
    {
        let i = match self.preheat_pos(run.task_id) {
            Some(i) => i,
            None => return,
        };
        proof { self.lemma_preheat_index(run.task_id, i as int); }
        let mut t = self.preheat_tasks[i].duplicate();
        t.status = preheat_final_status(run.done, run.failed);
        t.finished_at = Some(now);
        self.set_preheat(i, t);
    }
}

/// A finished run is done exactly when nothing failed, failed exactly when
/// something failed and nothing succeeded, and partial otherwise.
pub proof fn preheat_status_rule(done: u64, failed: u64)
    ensures
        (final_status(done, failed) == TaskStatus::Done) <==> failed == 0,
        (final_status(done, failed) == TaskStatus::Failed) <==> (failed > 0 && done == 0),
        (final_status(done, failed) == TaskStatus::Partial) <==> (failed > 0 && done > 0),
{
}

/// A preheat task read back after it was created is the task the request
/// described (see `created_preheat`), and it waits in the queue at the rank
/// of its priority.
pub proof fn created_preheat_reads_back(
    old: AppState,
    new: AppState,
    req: CreatePreheatRequest,
    task_id: u128,
    log_id: u128,
    now: i128,
    r: Result<u128, ApiError>,
)
    requires
        old.wf(),
        new.wf(),
        create_preheat_outcome(old, new, req, task_id, log_id, now, r),
        r is Ok,
    ensures
        has_preheat(new.preheat_tasks@, task_id),
        new.preheat_tasks@[preheat_index(new.preheat_tasks@, task_id)]@ == created_preheat(old, req, task_id, now),
        preheat_entries(new.preheat_queue).contains_key(task_id),
        preheat_entries(new.preheat_queue)[task_id] == priority_rank(priority_named(opt_text_view(req.priority))),
{
    let t = preheat_views(new.preheat_tasks@);
    let tk = preheat_ids(new.preheat_tasks@);
    lemma_upserted_found(
        preheat_views(old.preheat_tasks@),
        preheat_ids(old.preheat_tasks@),
        task_id,
        created_preheat(old, req, task_id, now),
        t,
        tk,
        |v: PreheatTaskView| v.task_id,
    );
    let q = choose|q: int| 0 <= q < t.len() && tk[q] == task_id;
    assert(new.preheat_tasks@[q].task_id == task_id);
    let i = preheat_index(new.preheat_tasks@, task_id);
    assert(tk[i] == task_id);
}

/// Cancelling a preheat task that is over (done, failed or cancelled) is
/// refused with "Task already finished" and changes nothing; cancelling one
/// that is pending, running or partial succeeds and leaves it cancelled,
/// finished at the instant of the cancel.
pub proof fn cancel_refused_exactly_when_over(
    old: AppState,
    new: AppState,
    id: u128,
    log_id: u128,
    now: i128,
    r: Result<bool, ApiError>,
)
    requires
        has_preheat(old.preheat_tasks@, id),
        cancel_preheat_outcome(old, new, id, log_id, now, r),
    ensures
        ({
            let st = old.preheat_tasks@[preheat_index(old.preheat_tasks@, id)].status;
            &&& (st == TaskStatus::Done || st == TaskStatus::Failed || st == TaskStatus::Cancelled)
                ==> refused(r, ErrorKind::BadRequest, "Task already finished"@) && new.same(&old)
            &&& (st == TaskStatus::Pending || st == TaskStatus::Running || st == TaskStatus::Partial)
                ==> r == Ok::<bool, ApiError>(true)
                    && preheat_views(new.preheat_tasks@)[preheat_index(old.preheat_tasks@, id)].status == TaskStatus::Cancelled
                    && preheat_views(new.preheat_tasks@)[preheat_index(old.preheat_tasks@, id)].finished_at == Some(now)
        }),
{
    let i = preheat_index(old.preheat_tasks@, id);
    assert(0 <= i < old.preheat_tasks@.len());
}

/// A task that was just cancelled cannot be cancelled again: the second
/// request is refused with "Task already finished" and changes nothing.
pub proof fn cancel_twice_refused(
    s0: AppState,
    s1: AppState,
    s2: AppState,
    id: u128,
    l1: u128,
    t1: i128,
    r1: Result<bool, ApiError>,
    l2: u128,
    t2: i128,
    r2: Result<bool, ApiError>,
)
    requires
        s0.wf(),
        s1.wf(),
        cancel_preheat_outcome(s0, s1, id, l1, t1, r1),
        r1 is Ok,
        cancel_preheat_outcome(s1, s2, id, l2, t2, r2),
    ensures
        refused(r2, ErrorKind::BadRequest, "Task already finished"@),
        s2.same(&s1),
{
    assert(has_preheat(s0.preheat_tasks@, id));
    let i = preheat_index(s0.preheat_tasks@, id);
    assert(0 <= i < s0.preheat_tasks@.len() && s0.preheat_tasks@[i].task_id == id);
    assert(preheat_views(s1.preheat_tasks@).len() == s1.preheat_tasks@.len());
    assert(preheat_views(s0.preheat_tasks@).len() == s0.preheat_tasks@.len());
    assert(preheat_views(s1.preheat_tasks@)[i].task_id == id);
    assert(s1.preheat_tasks@[i].task_id == id);
    s1.lemma_preheat_index(id, i);
    assert(preheat_views(s1.preheat_tasks@)[i].status == TaskStatus::Cancelled);
}

} // verus!
