//! Purge tasks: choosing which publications to remove, scheduling their
//! delayed removal, and removing them when they fall due.
use vstd::prelude::*;
use crate::models::{
    PurgeTask, PurgeTaskView, PurgeType, TaskStatus, ResourcePublish, copy_ids, copy_texts, texts,
    parse_purge_type, purge_type_named, purge_type_label, purge_type_text, parse_task_status,
    task_status_named, PagedResult,
};
use crate::store::{
    AppState, ApiError, ErrorKind, refused, refuse, StatEntry, purge_ids, purge_views, upserted,
    has_node, has_resource, resource_with, node_name_or_empty, last_access, all_nodes_known,
    all_resources_known, first_unknown_node, first_unknown_resource, not_found_text,
    not_found_message, lemma_filter_map_step, log_views, lemma_distinct_filter, publish_keys,
    stat_keys, distinct, lemma_upserted_found, resource_ids,
};
use crate::audit::{audit_entry, query_page, query_page_size, page_size_of, opt_view};
use crate::text::{has_prefix, str_starts_with};
use crate::clock::{DAY_NANOS, MINUTE_NANOS, MIN_INSTANT, MAX_INSTANT, representable, now_nanos};
use crate::ids::{uuid_text, id_text, new_id};
use crate::queues::{delay_entries, delay_queue_push, delay_queue_peek, delay_queue_pop};
use crate::sorting::{desc_order, is_desc_order, arrange, page_window, page_in_range, page_bounds};

verus! {

/// A request to purge publications.
pub struct CreatePurgeRequest {
    pub purge_type: String,
    pub node_ids: Option<Vec<u128>>,
    pub resource_ids: Option<Vec<u128>>,
    pub days_not_accessed: Option<u32>,
    pub mime_types: Option<Vec<String>>,
    pub created_by: String,
    pub dry_run: Option<bool>,
}

/// A query of the purge tasks.
pub struct PurgeTaskQuery {
    pub page: Option<u64>,
    pub page_size: Option<u64>,
    pub status: Option<String>,
    pub purge_type: Option<String>,
}

/// A publication that a purge would remove.
pub struct PurgeResourceInfo {
    pub resource_id: u128,
    pub resource_name: String,
    pub node_id: u128,
    pub node_name: String,
    pub size_bytes: u64,
    pub last_accessed: Option<i128>,
}

/// The mathematical value of a [`PurgeResourceInfo`].
pub ghost struct PurgeInfoView {
    pub resource_id: u128,
    pub resource_name: Seq<char>,
    pub node_id: u128,
    pub node_name: Seq<char>,
    pub size_bytes: u64,
    pub last_accessed: Option<i128>,
}

impl View for PurgeResourceInfo {
    type V = PurgeInfoView;

    open spec fn view(&self) -> PurgeInfoView {
        PurgeInfoView {
            resource_id: self.resource_id,
            resource_name: self.resource_name@,
            node_id: self.node_id,
            node_name: self.node_name@,
            size_bytes: self.size_bytes,
            last_accessed: self.last_accessed,
        }
    }
}

/// What a purge would remove: the publications, largest first, and their total size.
pub struct DryRunResult {
    pub total_resources: u64,
    pub resources: Vec<PurgeResourceInfo>,
    pub total_size_bytes: u64,
}

/// The views of a list of purge previews.
pub open spec fn info_views(s: Seq<PurgeResourceInfo>) -> Seq<PurgeInfoView> {
    s.map_values(|i: PurgeResourceInfo| i@)
}

/// The sizes of a list of purge previews, as sort keys.
pub open spec fn info_sizes(s: Seq<PurgeInfoView>) -> Seq<i128> {
    s.map_values(|i: PurgeInfoView| i.size_bytes as i128)
}

/// The total size of a list of purge previews.
pub open spec fn info_total(s: Seq<PurgeInfoView>) -> nat
    decreases s.len(),
{
    if s.len() == 0 { 0 } else { info_total(s.drop_last()) + s.last().size_bytes as nat }
}

/// The identifiers a request lists (none when it lists nothing).
pub open spec fn ids_or_empty(o: Option<Vec<u128>>) -> Seq<u128> {
    match o { Some(v) => v@, None => Seq::empty() }
}

/// The MIME prefixes a request lists (none when it lists nothing).
pub open spec fn texts_or_empty(o: Option<Vec<String>>) -> Seq<Seq<char>> {
    match o { Some(v) => texts(v@), None => Seq::empty() }
}

/// `mime` begins with one of the prefixes `mimes`.
pub open spec fn mime_listed(mimes: Seq<Seq<char>>, mime: Seq<char>) -> bool {
    exists|k: int| 0 <= k < mimes.len() && has_prefix(mime, #[trigger] mimes[k])
}

/// A purge with the MIME prefixes `mimes` keeps resource `rid` in its choice:
/// no prefixes are given, the resource is not stored, or its type has one of them.
pub open spec fn mime_allows(res: Seq<crate::models::Resource>, rid: u128, mimes: Seq<Seq<char>>) -> bool {
    mimes.len() == 0 || !has_resource(res, rid) || mime_listed(mimes, resource_with(res, rid).mime_type@)
}

/// The instant `days` days before `now`.
pub open spec fn days_before(now: int, days: u32) -> int {
    now - days * DAY_NANOS
}

/// The instant `days` days before `now`, which chrono must be able to represent.
pub fn time_cutoff(now: i128, days: u32) -> (r: i128)
    requires
        representable(days_before(now as int, days)),
    ensures
        r == days_before(now as int, days),
{
    let d: i128 = days as i128;
    assert(d * 86_400_000_000_000 <= 4294967295 * 86_400_000_000_000) by (nonlinear_arith)
        requires 0 <= d <= 4294967295;
    let c: i128 = now - d * DAY_NANOS;
    c as i128
}

/// Chrono can represent the instant `days` days before `now`.
pub fn cutoff_representable(now: i128, days: u32) -> (r: bool)
    ensures
        r == representable(days_before(now as int, days)),
{
    let d: i128 = days as i128;
    assert(d * 86_400_000_000_000 <= 4294967295 * 86_400_000_000_000) by (nonlinear_arith)
        requires 0 <= d <= 4294967295;
    if now < MIN_INSTANT {
        return false;
    }
    let c: i128 = now - d * DAY_NANOS;
    MIN_INSTANT <= c && c <= MAX_INSTANT
}

/// The number of publications on node `nid`.
pub open spec fn publishes_on(ps: Seq<ResourcePublish>, nid: u128) -> nat {
    ps.filter(|p: ResourcePublish| p.node_id == nid).len()
}

/// The number of publications of resource `rid`.
pub open spec fn publishes_of(ps: Seq<ResourcePublish>, rid: u128) -> nat {
    ps.filter(|p: ResourcePublish| p.resource_id == rid).len()
}

/// The publications on the nodes `nids`, counted once per listed node.
pub open spec fn count_on_nodes(ps: Seq<ResourcePublish>, nids: Seq<u128>) -> nat
    decreases nids.len(),
{
    if nids.len() == 0 { 0 } else { count_on_nodes(ps, nids.drop_last()) + publishes_on(ps, nids.last()) }
}

/// The publications of the resources `rids`, counted once per listed resource.
pub open spec fn count_of_resources(ps: Seq<ResourcePublish>, rids: Seq<u128>) -> nat
    decreases rids.len(),
{
    if rids.len() == 0 { 0 } else { count_of_resources(ps, rids.drop_last()) + publishes_of(ps, rids.last()) }
}

/// A time-based purge request counts these statistics: on a listed node, of
/// an allowed type, and last accessed before `cutoff`.
pub open spec fn stale_counted(
    res: Seq<crate::models::Resource>,
    e: StatEntry,
    nids: Seq<u128>,
    mimes: Seq<Seq<char>>,
    cutoff: int,
) -> bool {
    &&& nids.contains(e.node_id)
    &&& mime_allows(res, e.resource_id, mimes)
    &&& e.stats.last_accessed_at matches Some(l) && l < cutoff
}

/// How many publications a purge request with the given choice counts at `now`.
pub open spec fn purge_count(
    st: AppState,
    t: PurgeType,
    nids: Seq<u128>,
    rids: Seq<u128>,
    mimes: Seq<Seq<char>>,
    days: Option<u32>,
    now: int,
) -> nat {
    match t {
        PurgeType::ByNode => count_on_nodes(st.resource_publishes@, nids),
        PurgeType::ByResource => count_of_resources(st.resource_publishes@, rids),
        PurgeType::ByTime => st.resource_stats@.filter(
            |e: StatEntry| stale_counted(st.resources@, e, nids, mimes, days_before(now, days.unwrap())),
        ).len(),
    }
}

/// The refusal a purge request gets, if it gets one: its kind and message.
pub open spec fn purge_refusal(st: AppState, req: CreatePurgeRequest) -> Option<(ErrorKind, Seq<char>)> {
    let nids = ids_or_empty(req.node_ids);
    let rids = ids_or_empty(req.resource_ids);
    match purge_type_named(req.purge_type@) {
        None => Some((ErrorKind::BadRequest, "Invalid purge type"@)),
        Some(t) => if t == PurgeType::ByNode && nids.len() == 0 {
            Some((ErrorKind::BadRequest, "No nodes specified"@))
        } else if t == PurgeType::ByResource && rids.len() == 0 {
            Some((ErrorKind::BadRequest, "No resources specified"@))
        } else if t == PurgeType::ByTime && nids.len() == 0 {
            Some((ErrorKind::BadRequest, "No nodes specified for time-based purge"@))
        } else if t == PurgeType::ByTime && req.days_not_accessed.is_none() {
            Some((ErrorKind::BadRequest, "days_not_accessed is required for time-based purge"@))
        } else if !all_nodes_known(st.nodes@, nids) {
            Some((ErrorKind::BadRequest, not_found_text("Node "@, first_unknown_node(st.nodes@, nids))))
        } else if !all_resources_known(st.resources@, rids) {
            Some((ErrorKind::BadRequest, not_found_text("Resource "@, first_unknown_resource(st.resources@, rids))))
        } else {
            None
        },
    }
}

/// An accepted purge request counts within the range of `u64` and, when it
/// is time-based, its cutoff is an instant chrono represents.
pub open spec fn purge_request_computable(st: AppState, req: CreatePurgeRequest, now: int) -> bool {
    purge_refusal(st, req) is None ==> {
        let t = purge_type_named(req.purge_type@).unwrap();
        &&& (t == PurgeType::ByTime ==> representable(days_before(now, req.days_not_accessed.unwrap())))
        &&& purge_count(st, t, ids_or_empty(req.node_ids), ids_or_empty(req.resource_ids),
            texts_or_empty(req.mime_types), req.days_not_accessed, now) <= u64::MAX
    }
}

/// Creating a purge task from `old` into `new` at the instant `now` read from
/// the clock, with fresh identifiers `task_id` and `log_id`: the instant is
/// representable; the answer is `None`, with nothing changed, exactly where
/// the request is accepted but not computable at `now`; otherwise it is the
/// answer of `create_purge_outcome`.
pub open spec fn create_purge_now(
    old: AppState,
    new: AppState,
    req: CreatePurgeRequest,
    task_id: u128,
    log_id: u128,
    now: i128,
    r: Option<Result<u128, ApiError>>,
) -> bool {
    &&& representable(now as int)
    &&& (r is None <==> (purge_refusal(old, req) is None && !purge_request_computable(old, req, now as int)))
    &&& r is None ==> new.same(&old)
    &&& r matches Some(res) ==> create_purge_outcome(old, new, req, task_id, log_id, now, res)
}

/// The task an accepted purge request creates.
pub open spec fn created_purge(st: AppState, req: CreatePurgeRequest, task_id: u128, now: i128) -> PurgeTaskView {
    let t = purge_type_named(req.purge_type@).unwrap();
    let nids = ids_or_empty(req.node_ids);
    let rids = ids_or_empty(req.resource_ids);
    let mimes = texts_or_empty(req.mime_types);
    PurgeTaskView {
        task_id,
        purge_type: t,
        node_ids: nids,
        resource_ids: rids,
        days_not_accessed: req.days_not_accessed,
        mime_types: mimes,
        status: TaskStatus::Pending,
        total: purge_count(st, t, nids, rids, mimes, req.days_not_accessed, now as int) as u64,
        done: 0,
        failed: 0,
        started_at: None,
        finished_at: None,
        created_by: req.created_by@,
        dry_run: match req.dry_run { Some(b) => b, None => false },
        created_at: now,
    }
}

/// A purge preview of resource `rid` on node `nid`.
pub open spec fn preview(st: AppState, rid: u128, nid: u128, last: Option<i128>) -> PurgeInfoView {
    let r = resource_with(st.resources@, rid);
    PurgeInfoView {
        resource_id: r.id,
        resource_name: r.original_filename@,
        node_id: nid,
        node_name: node_name_or_empty(st.nodes@, nid),
        size_bytes: r.size_bytes,
        last_accessed: last,
    }
}

/// The resource of a publication is stored and of a listed type (when types are listed).
pub open spec fn stored_and_listed(st: AppState, rid: u128, mimes: Seq<Seq<char>>) -> bool {
    has_resource(st.resources@, rid)
        && (mimes.len() == 0 || mime_listed(mimes, resource_with(st.resources@, rid).mime_type@))
}

/// Previews of the publications on node `nid` whose resource is stored and listed.
pub open spec fn previews_on_node(st: AppState, nid: u128, mimes: Seq<Seq<char>>) -> Seq<PurgeInfoView> {
    st.resource_publishes@.filter(
        |p: ResourcePublish| p.node_id == nid && stored_and_listed(st, p.resource_id, mimes),
    ).map_values(|p: ResourcePublish| preview(st, p.resource_id, nid, last_access(st.resource_stats@, p.resource_id, p.node_id)))
}

/// Previews of the publications of resource `rid`, when it is stored and listed.
pub open spec fn previews_of_resource(st: AppState, rid: u128, mimes: Seq<Seq<char>>) -> Seq<PurgeInfoView> {
    if stored_and_listed(st, rid, mimes) {
        st.resource_publishes@.filter(|p: ResourcePublish| p.resource_id == rid).map_values(
            |p: ResourcePublish| preview(st, rid, p.node_id, last_access(st.resource_stats@, rid, p.node_id)),
        )
    } else {
        Seq::empty()
    }
}

/// Previews for the nodes `nids`, node after node.
pub open spec fn previews_on_nodes(st: AppState, nids: Seq<u128>, mimes: Seq<Seq<char>>) -> Seq<PurgeInfoView>
    decreases nids.len(),
{
    if nids.len() == 0 {
        Seq::empty()
    } else {
        previews_on_nodes(st, nids.drop_last(), mimes) + previews_on_node(st, nids.last(), mimes)
    }
}

/// Previews for the resources `rids`, resource after resource.
pub open spec fn previews_of_resources(st: AppState, rids: Seq<u128>, mimes: Seq<Seq<char>>) -> Seq<PurgeInfoView>
    decreases rids.len(),
{
    if rids.len() == 0 {
        Seq::empty()
    } else {
        previews_of_resources(st, rids.drop_last(), mimes) + previews_of_resource(st, rids.last(), mimes)
    }
}

/// A time-based preview or purge takes these statistics: on a listed node and
/// not accessed since `cutoff` (or never).
pub open spec fn stale(e: StatEntry, nids: Seq<u128>, cutoff: int) -> bool {
    nids.contains(e.node_id) && !(e.stats.last_accessed_at matches Some(l) && l >= cutoff)
}

/// Previews of the stale statistics whose resource is stored and listed.
pub open spec fn previews_stale(st: AppState, nids: Seq<u128>, mimes: Seq<Seq<char>>, cutoff: int) -> Seq<PurgeInfoView> {
    st.resource_stats@.filter(
        |e: StatEntry| stale(e, nids, cutoff) && stored_and_listed(st, e.resource_id, mimes),
    ).map_values(|e: StatEntry| preview(st, e.resource_id, e.node_id, e.stats.last_accessed_at))
}

/// The days a preview looks back when the request names none.
pub const DEFAULT_STALE_DAYS: u32 = 7;

/// The days a time-based preview or purge looks back.
pub open spec fn stale_days(days: Option<u32>) -> u32 {
    match days { Some(d) => d, None => DEFAULT_STALE_DAYS }
}

/// The effect of creating a purge task: the refusal of `purge_refusal` with
/// nothing changed, or the task of `created_purge` stored under `task_id`,
/// its identifier returned, and the audit entry `log_id` recorded.
pub open spec fn create_purge_outcome(
    old: AppState,
    new: AppState,
    req: CreatePurgeRequest,
    task_id: u128,
    log_id: u128,
    now: i128,
    r: Result<u128, ApiError>,
) -> bool {
    match purge_refusal(old, req) {
        Some((kind, msg)) => refused(r, kind, msg) && new.same(&old),
        None => {
            &&& r matches Ok(id) && id == task_id
            &&& purge_views(new.purge_tasks@) == upserted(
                purge_views(old.purge_tasks@),
                purge_ids(old.purge_tasks@),
                task_id,
                created_purge(old, req, task_id, now),
            )
            &&& log_views(new.audit_logs@) == log_views(old.audit_logs@).push(
                audit_entry(
                    log_id,
                    req.created_by@,
                    "create_purge"@,
                    uuid_text(task_id),
                    purge_type_label(purge_type_named(req.purge_type@).unwrap()),
                    now,
                    if created_purge(old, req, task_id, now).dry_run { "dry_run"@ } else { "success"@ },
                ),
            )
            &&& new.resources == old.resources
            &&& new.resource_stats == old.resource_stats
            &&& new.nodes == old.nodes
            &&& new.resource_publishes == old.resource_publishes
            &&& new.preheat_tasks == old.preheat_tasks
            &&& new.preheat_queue == old.preheat_queue
            &&& new.delayed_purge_queue == old.delayed_purge_queue
            &&& new.request_history == old.request_history
        },
    }
}

/// The previews of a request, in the order they are found.
pub open spec fn dry_run_previews(st: AppState, t: PurgeType, req: CreatePurgeRequest, now: int) -> Seq<PurgeInfoView> {
    let mimes = texts_or_empty(req.mime_types);
    match t {
        PurgeType::ByNode => previews_on_nodes(st, ids_or_empty(req.node_ids), mimes),
        PurgeType::ByResource => previews_of_resources(st, ids_or_empty(req.resource_ids), mimes),
        PurgeType::ByTime => previews_stale(st, ids_or_empty(req.node_ids), mimes,
            days_before(now, stale_days(req.days_not_accessed))),
    }
}

/// The (resource, node) keys a running purge task takes on node `nid`.
pub open spec fn purge_items_on_node(st: AppState, nid: u128, mimes: Seq<Seq<char>>) -> Seq<(u128, u128)> {
    st.resource_publishes@.filter(
        |p: ResourcePublish| p.node_id == nid && mime_allows(st.resources@, p.resource_id, mimes),
    ).map_values(|p: ResourcePublish| (p.resource_id, p.node_id))
}

/// The (resource, node) keys a running purge task takes of resource `rid`.
pub open spec fn purge_items_of_resource(st: AppState, rid: u128, mimes: Seq<Seq<char>>) -> Seq<(u128, u128)> {
    st.resource_publishes@.filter(
        |p: ResourcePublish| p.resource_id == rid && mime_allows(st.resources@, rid, mimes),
    ).map_values(|p: ResourcePublish| (p.resource_id, p.node_id))
}

/// The keys a running purge task takes on the nodes `nids`, node after node.
pub open spec fn purge_items_on_nodes(st: AppState, nids: Seq<u128>, mimes: Seq<Seq<char>>) -> Seq<(u128, u128)>
    decreases nids.len(),
{
    if nids.len() == 0 {
        Seq::empty()
    } else {
        purge_items_on_nodes(st, nids.drop_last(), mimes) + purge_items_on_node(st, nids.last(), mimes)
    }
}

/// The keys a running purge task takes of the resources `rids`, resource after resource.
pub open spec fn purge_items_of_resources(st: AppState, rids: Seq<u128>, mimes: Seq<Seq<char>>) -> Seq<(u128, u128)>
    decreases rids.len(),
{
    if rids.len() == 0 {
        Seq::empty()
    } else {
        purge_items_of_resources(st, rids.drop_last(), mimes) + purge_items_of_resource(st, rids.last(), mimes)
    }
}

/// The keys of the stale statistics a time-based purge task takes.
pub open spec fn purge_items_stale(st: AppState, nids: Seq<u128>, mimes: Seq<Seq<char>>, cutoff: int) -> Seq<(u128, u128)> {
    st.resource_stats@.filter(
        |e: StatEntry| stale(e, nids, cutoff) && mime_allows(st.resources@, e.resource_id, mimes),
    ).map_values(|e: StatEntry| (e.resource_id, e.node_id))
}

/// The keys a running purge task takes at `now`, in the order they are found.
pub open spec fn purge_items(st: AppState, task: PurgeTaskView, now: int) -> Seq<(u128, u128)> {
    match task.purge_type {
        PurgeType::ByNode => purge_items_on_nodes(st, task.node_ids, task.mime_types),
        PurgeType::ByResource => purge_items_of_resources(st, task.resource_ids, task.mime_types),
        PurgeType::ByTime => purge_items_stale(st, task.node_ids, task.mime_types,
            days_before(now, stale_days(task.days_not_accessed))),
    }
}

/// The delay queue after scheduling the removal of `items` at `at`.
pub open spec fn scheduled(q: Map<(u128, u128, i128), i128>, items: Seq<(u128, u128)>, at: i128) -> Map<(u128, u128, i128), i128>
    decreases items.len(),
{
    if items.len() == 0 {
        q
    } else {
        scheduled(q, items.drop_last(), at).insert((items.last().0, items.last().1, at), at)
    }
}

/// The purge task after a run at `now` that scheduled `n` removals.
pub open spec fn purge_finished(t: PurgeTaskView, n: nat, now: i128) -> PurgeTaskView {
    PurgeTaskView {
        status: TaskStatus::Done,
        total: n as u64,
        done: n as u64,
        started_at: Some(now),
        finished_at: Some(now),
        ..t
    }
}

/// The removals are scheduled five minutes after the task runs.
pub const PURGE_DELAY_MINUTES: i128 = 5;

/// The task matches the query's status and type, where given.
pub open spec fn purge_selected(t: PurgeTask, st: Option<TaskStatus>, ty: Option<PurgeType>) -> bool {
    &&& (st matches Some(s) ==> t.status == s)
    &&& (ty matches Some(y) ==> t.purge_type == y)
}

/// The creation times of a list of purge tasks.
pub open spec fn purge_times(s: Seq<PurgeTask>) -> Seq<i128> {
    s.map_values(|t: PurgeTask| t.created_at)
}

/// `mime` begins with one of the prefixes `mimes`.
pub fn mime_matches(mimes: &Vec<String>, mime: &str) -> (r: bool)
    ensures
        r == mime_listed(texts(mimes@), mime@),
{
    let mut k: usize = 0;
    while k < mimes.len()
        invariant
            0 <= k <= mimes@.len(),
            forall|j: int| 0 <= j < k ==> !has_prefix(mime@, texts(mimes@)[j]),
        decreases mimes@.len() - k,
    {
        if str_starts_with(mime, mimes[k].as_str()) {
            assert(has_prefix(mime@, texts(mimes@)[k as int]));
            return true;
        }
        k += 1;
    }
    false
}

/// The publications on listed nodes number at most the nodes times the publications.
pub proof fn lemma_count_on_nodes_bound(ps: Seq<ResourcePublish>, nids: Seq<u128>)
    ensures
        count_on_nodes(ps, nids) <= nids.len() * ps.len(),
    decreases nids.len(),
{
    if nids.len() > 0 {
        lemma_count_on_nodes_bound(ps, nids.drop_last());
        ps.lemma_filter_len(|p: ResourcePublish| p.node_id == nids.last());
        let a = nids.len() - 1;
        assert((a + 1) * ps.len() == a * ps.len() + ps.len()) by (nonlinear_arith);
    }
}

/// The publications of listed resources number at most the resources times the publications.
pub proof fn lemma_count_of_resources_bound(ps: Seq<ResourcePublish>, rids: Seq<u128>)
    ensures
        count_of_resources(ps, rids) <= rids.len() * ps.len(),
    decreases rids.len(),
{
    if rids.len() > 0 {
        lemma_count_of_resources_bound(ps, rids.drop_last());
        ps.lemma_filter_len(|p: ResourcePublish| p.resource_id == rids.last());
        let a = rids.len() - 1;
        assert((a + 1) * ps.len() == a * ps.len() + ps.len()) by (nonlinear_arith);
    }
}

impl AppState {
    /// The resource `rid` passes a purge's MIME prefixes `mimes` (see `mime_allows`).
    pub fn mime_allows_resource(&self, rid: u128, mimes: &Vec<String>) -> (r: bool)
        requires
            self.wf(),
        ensures
            r == mime_allows(self.resources@, rid, texts(mimes@)),
    {
        if mimes.len() == 0 {
            return true;
        }
        match self.resource_pos(rid) {
            None => true,
            Some(i) => {
                proof { self.lemma_resource_at(i as int); }
                mime_matches(mimes, self.resources[i].mime_type.as_str())
            },
        }
    }

    /// The resource `rid` is stored and, when prefixes are listed, of a listed type.
    pub fn stored_and_listed_exec(&self, rid: u128, mimes: &Vec<String>) -> (r: bool)
        requires
            self.wf(),
        ensures
            r == stored_and_listed(*self, rid, texts(mimes@)),
    {
        match self.resource_pos(rid) {
            None => false,
            Some(i) => {
                proof { self.lemma_resource_at(i as int); }
                mimes.len() == 0 || mime_matches(mimes, self.resources[i].mime_type.as_str())
            },
        }
    }

    /// The number of publications on node `nid`.
    pub fn count_publishes_on(&self, nid: u128) -> (n: usize)
        ensures
            n == publishes_on(self.resource_publishes@, nid),
    {
        let ghost p = |q: ResourcePublish| q.node_id == nid;
        let ghost ps = self.resource_publishes@;
        let mut n: usize = 0;
        let mut i: usize = 0;
        while i < self.resource_publishes.len()
            invariant
                ps == self.resource_publishes@,
                p == (|q: ResourcePublish| q.node_id == nid),
                0 <= i <= ps.len(),
                n == ps.take(i as int).filter(p).len(),
            decreases ps.len() - i,
        {
            proof { lemma_filter_map_step(ps, i as int, p, |q: ResourcePublish| q); }
            if self.resource_publishes[i].node_id == nid {
                n += 1;
            }
            i += 1;
        }
        assert(ps.take(ps.len() as int) =~= ps);
        n
    }

    /// The number of publications of resource `rid`.
    pub fn count_publishes_of(&self, rid: u128) -> (n: usize)
        ensures
            n == publishes_of(self.resource_publishes@, rid),
    {
        let ghost p = |q: ResourcePublish| q.resource_id == rid;
        let ghost ps = self.resource_publishes@;
        let mut n: usize = 0;
        let mut i: usize = 0;
        while i < self.resource_publishes.len()
            invariant
                ps == self.resource_publishes@,
                p == (|q: ResourcePublish| q.resource_id == rid),
                0 <= i <= ps.len(),
                n == ps.take(i as int).filter(p).len(),
            decreases ps.len() - i,
        {
            proof { lemma_filter_map_step(ps, i as int, p, |q: ResourcePublish| q); }
            if self.resource_publishes[i].resource_id == rid {
                n += 1;
            }
            i += 1;
        }
        assert(ps.take(ps.len() as int) =~= ps);
        n
    }

    /// The number of publications a purge request with the given choice counts
    /// at `now`, computed without overflow.
    pub fn purge_target_count(
        &self,
        t: PurgeType,
        nids: &Vec<u128>,
        rids: &Vec<u128>,
        mimes: &Vec<String>,
        days: Option<u32>,
        now: i128,
    ) -> (n: u128)
        requires
            self.wf(),
            t == PurgeType::ByTime ==> days is Some && representable(days_before(now as int, days.unwrap())),
        ensures
            n == purge_count(*self, t, nids@, rids@, texts(mimes@), days, now as int),
    {
        match t {
            PurgeType::ByNode => {
                let ghost ps = self.resource_publishes@;
                let mut n: u128 = 0;
                let mut i: usize = 0;
                while i < nids.len()
                    invariant
                        ps == self.resource_publishes@,
                        0 <= i <= nids@.len(),
                        n == count_on_nodes(ps, nids@.take(i as int)),
                    decreases nids@.len() - i,
                {
                    proof {
                        self.lemma_count_on_nodes_prefix(nids@, i as int + 1);
                        lemma_count_on_nodes_bound(ps, nids@.take(i as int));
                        assert(nids@.take(i as int).len() == i);
                        assert(ps.len() == self.resource_publishes.len());
                        assert(i * ps.len() <= 18446744073709551615 * 18446744073709551615) by (nonlinear_arith)
                            requires i <= 18446744073709551615, ps.len() <= 18446744073709551615;
                    }
                    let c = self.count_publishes_on(nids[i]);
                    n = n + c as u128;
                    i += 1;
                }
                assert(nids@.take(nids@.len() as int) =~= nids@);
                n
            },
            PurgeType::ByResource => {
                let ghost ps = self.resource_publishes@;
                let mut n: u128 = 0;
                let mut i: usize = 0;
                while i < rids.len()
                    invariant
                        ps == self.resource_publishes@,
                        0 <= i <= rids@.len(),
                        n == count_of_resources(ps, rids@.take(i as int)),
                    decreases rids@.len() - i,
                {
                    proof {
                        self.lemma_count_of_resources_prefix(rids@, i as int + 1);
                        lemma_count_of_resources_bound(ps, rids@.take(i as int));
                        assert(rids@.take(i as int).len() == i);
                        assert(ps.len() == self.resource_publishes.len());
                        assert(i * ps.len() <= 18446744073709551615 * 18446744073709551615) by (nonlinear_arith)
                            requires i <= 18446744073709551615, ps.len() <= 18446744073709551615;
                    }
                    let c = self.count_publishes_of(rids[i]);
                    n = n + c as u128;
                    i += 1;
                }
                assert(rids@.take(rids@.len() as int) =~= rids@);
                n
            },
            PurgeType::ByTime => {
                let d = match days { Some(d) => d, None => 0 };
                let cutoff = time_cutoff(now, d);
                let ghost es = self.resource_stats@;
                let ghost p = |e: StatEntry| stale_counted(self.resources@, e, nids@, texts(mimes@), cutoff as int);
                let mut n: usize = 0;
                let mut i: usize = 0;
                while i < self.resource_stats.len()
                    invariant
                        self.wf(),
                        es == self.resource_stats@,
                        p == (|e: StatEntry| stale_counted(self.resources@, e, nids@, texts(mimes@), cutoff as int)),
                        0 <= i <= es.len(),
                        n == es.take(i as int).filter(p).len(),
                        n <= i,
                    decreases es.len() - i,
                {
                    proof {
                        lemma_filter_map_step(es, i as int, p, |e: StatEntry| e);
                    }
                    let e = self.resource_stats[i];
                    let on_node = contains_id(nids, e.node_id);
                    let allowed = self.mime_allows_resource(e.resource_id, mimes);
                    let old_enough = match e.stats.last_accessed_at {
                        Some(l) => l < cutoff,
                        None => false,
                    };
                    if on_node && allowed && old_enough {
                        n += 1;
                    }
                    i += 1;
                }
                assert(es.take(es.len() as int) =~= es);
                n as u128
            },
        }
    }

    /// Counting the nodes of a prefix one more step.
    proof fn lemma_count_on_nodes_prefix(&self, nids: Seq<u128>, k: int)
        requires
            0 < k <= nids.len(),
        ensures
            count_on_nodes(self.resource_publishes@, nids.take(k))
                == count_on_nodes(self.resource_publishes@, nids.take(k - 1)) + publishes_on(self.resource_publishes@, nids[k - 1]),
            count_on_nodes(self.resource_publishes@, nids.take(k)) <= count_on_nodes(self.resource_publishes@, nids),
        decreases nids.len() - k,
    {
        assert(nids.take(k).drop_last() =~= nids.take(k - 1));
        if k < nids.len() {
            self.lemma_count_on_nodes_prefix(nids, k + 1);
        } else {
            assert(nids.take(k) =~= nids);
        }
    }

    /// Counting the resources of a prefix one more step.
    proof fn lemma_count_of_resources_prefix(&self, rids: Seq<u128>, k: int)
        requires
            0 < k <= rids.len(),
        ensures
            count_of_resources(self.resource_publishes@, rids.take(k))
                == count_of_resources(self.resource_publishes@, rids.take(k - 1)) + publishes_of(self.resource_publishes@, rids[k - 1]),
            count_of_resources(self.resource_publishes@, rids.take(k)) <= count_of_resources(self.resource_publishes@, rids),
        decreases rids.len() - k,
    {
        assert(rids.take(k).drop_last() =~= rids.take(k - 1));
        if k < rids.len() {
            self.lemma_count_of_resources_prefix(rids, k + 1);
        } else {
            assert(rids.take(k) =~= rids);
        }
    }

    /// Stores purge task `t`, replacing the stored task with its identifier.
    pub fn put_purge_task(&mut self, t: PurgeTask)
        requires
            old(self).wf(),
        ensures
            final(self).wf(),
            purge_views(final(self).purge_tasks@)
                == upserted(purge_views(old(self).purge_tasks@), purge_ids(old(self).purge_tasks@), t.task_id, t@),
            final(self).same_but_purge(&*old(self)),
    {
        let ghost ids = purge_ids(old(self).purge_tasks@);
        let id = t.task_id;
        match self.purge_pos(id) {
            Some(i) => {
                proof {
                    assert(purge_ids(old(self).purge_tasks@)[i as int] == id);
                    assert(0 <= i < ids.len() && ids[i as int] == id);
                    let k = choose|k: int| 0 <= k < ids.len() && ids[k] == id;
                    if k != i {
                        assert(ids[k] == ids[i as int]);
                        assert(false);
                    }
                }
                let ghost before = self.purge_tasks@;
                self.purge_tasks.set(i, t);
                proof {
                    assert(purge_views(self.purge_tasks@) =~= purge_views(before).update(i as int, t@));
                    assert(purge_ids(self.purge_tasks@) =~= purge_ids(before));
                }
            },
            None => {
                let ghost before = self.purge_tasks@;
                self.purge_tasks.push(t);
                proof {
                    assert(!(exists|k: int| 0 <= k < ids.len() && ids[k] == id));
                    assert(purge_views(self.purge_tasks@) =~= purge_views(before).push(t@));
                    assert(purge_ids(self.purge_tasks@) =~= purge_ids(before).push(id));
                }
            },
        }
    }

    /// Nothing changed but the purge tasks.
    pub open spec fn same_but_purge(&self, other: &AppState) -> bool {
        &&& self.resources == other.resources
        &&& self.resource_stats == other.resource_stats
        &&& self.nodes == other.nodes
        &&& self.resource_publishes == other.resource_publishes
        &&& self.preheat_tasks == other.preheat_tasks
        &&& self.preheat_queue == other.preheat_queue
        &&& self.delayed_purge_queue == other.delayed_purge_queue
        &&& self.audit_logs == other.audit_logs
        &&& self.request_history == other.request_history
    }

    /// Checks a purge request: the refusal it gets, exactly as `purge_refusal`
    /// says, or else the purge type it names.
    pub fn validate_purge_request(&self, req: &CreatePurgeRequest) -> (r: Result<PurgeType, ApiError>)
        requires
            self.wf(),
        ensures
            match purge_refusal(*self, *req) {
                Some((kind, msg)) => refused(r, kind, msg),
                None => r matches Ok(t) && purge_type_named(req.purge_type@) == Some(t),
            },
    {
        let t = match parse_purge_type(req.purge_type.as_str()) {
            Some(t) => t,
            None => return refuse(ErrorKind::BadRequest, "Invalid purge type"),
        };
        let node_ids = match &req.node_ids { Some(v) => copy_ids(v), None => Vec::new() };
        let resource_ids = match &req.resource_ids { Some(v) => copy_ids(v), None => Vec::new() };
        assert(node_ids@ == ids_or_empty(req.node_ids));
        assert(resource_ids@ == ids_or_empty(req.resource_ids));
        match t {
            PurgeType::ByNode => {
                if node_ids.len() == 0 {
                    return refuse(ErrorKind::BadRequest, "No nodes specified");
                }
            },
            PurgeType::ByResource => {
                if resource_ids.len() == 0 {
                    return refuse(ErrorKind::BadRequest, "No resources specified");
                }
            },
            PurgeType::ByTime => {
                if node_ids.len() == 0 {
                    return refuse(ErrorKind::BadRequest, "No nodes specified for time-based purge");
                }
                if req.days_not_accessed.is_none() {
                    return refuse(ErrorKind::BadRequest, "days_not_accessed is required for time-based purge");
                }
            },
        }
        if let Some(id) = self.find_unknown_node(&node_ids) {
            return Err(ApiError { kind: ErrorKind::BadRequest, message: not_found_message("Node ", id) });
        }
        if let Some(id) = self.find_unknown_resource(&resource_ids) {
            return Err(ApiError { kind: ErrorKind::BadRequest, message: not_found_message("Resource ", id) });
        }
        Ok(t)
    }

    /// Creates a purge task with identifier `task_id` at `now`, recording audit
    /// entry `log_id`. A request is refused exactly as `purge_refusal` says;
    /// an accepted one stores the task that `created_purge` describes and
    /// returns its identifier. Running the task is left to the caller.
    pub fn create_purge_task_at(
        &mut self,
        req: &CreatePurgeRequest,
        task_id: u128,
        log_id: u128,
        now: i128,
    ) -> (r: Result<u128, ApiError>)
        requires
            old(self).wf(),
            purge_request_computable(*old(self), *req, now as int),
        ensures
            final(self).wf(),
            create_purge_outcome(*old(self), *final(self), *req, task_id, log_id, now, r),
    {
        let t = match self.validate_purge_request(req) {
            Ok(t) => t,
            Err(e) => return Err(e),
        };
        let node_ids = match &req.node_ids { Some(v) => copy_ids(v), None => Vec::new() };
        let resource_ids = match &req.resource_ids { Some(v) => copy_ids(v), None => Vec::new() };
        let dry_run = match req.dry_run { Some(b) => b, None => false };
        let mime_types = match &req.mime_types { Some(v) => copy_texts(v), None => Vec::new() };
        assert(texts(mime_types@) == texts_or_empty(req.mime_types));
        let total = self.purge_target_count(t, &node_ids, &resource_ids, &mime_types, req.days_not_accessed, now) as u64;
        let task = PurgeTask {
            task_id,
            purge_type: t,
            node_ids,
            resource_ids,
            days_not_accessed: req.days_not_accessed,
            mime_types,
            status: TaskStatus::Pending,
            total,
            done: 0,
            failed: 0,
            started_at: None,
            finished_at: None,
            created_by: req.created_by.clone(),
            dry_run,
            created_at: now,
        };
        assert(task@ == created_purge(*old(self), *req, task_id, now));
        self.put_purge_task(task);
        let target = id_text(task_id);
        let scope = purge_type_text(t);
        let outcome = if dry_run { "dry_run" } else { "success" };
        self.log_audit_at(req.created_by.as_str(), "create_purge", target.as_str(), scope.as_str(), outcome, log_id, now);
        Ok(task_id)
    }
}

/// The answer to a purge preview at `now`: refused with "Invalid purge type"
/// when the request names no purge type; otherwise the previews of
/// `dry_run_previews`, largest first (equal sizes in the order found), their
/// number and their total size.
pub open spec fn dry_run_outcome(st: AppState, req: CreatePurgeRequest, now: int, r: Result<DryRunResult, ApiError>) -> bool {
    match purge_type_named(req.purge_type@) {
        None => refused(r, ErrorKind::BadRequest, "Invalid purge type"@),
        Some(t) => r matches Ok(d) && {
            let raw = dry_run_previews(st, t, req, now);
            &&& d.total_resources == raw.len()
            &&& d.total_size_bytes == info_total(raw)
            &&& exists|order: Seq<usize>| is_desc_order(order, info_sizes(raw))
                && info_views(d.resources@) == arrange(raw, order)
        },
    }
}

/// The preview of a request naming a purge type can be computed at `now`:
/// the cutoff of a time-based one is an instant chrono represents, and the
/// total size of the previews fits in `u64`.
pub open spec fn dry_run_computable(st: AppState, req: CreatePurgeRequest, now: int) -> bool {
    match purge_type_named(req.purge_type@) {
        None => true,
        Some(t) => {
            &&& (t == PurgeType::ByTime ==> representable(days_before(now, stale_days(req.days_not_accessed))))
            &&& info_total(dry_run_previews(st, t, req, now)) <= u64::MAX
        },
    }
}

/// Previewing a purge request at the instant `now` read from the clock: the
/// instant is representable; the answer is `None` exactly where the preview
/// cannot be computed at `now`, and otherwise the answer of `dry_run_outcome`.
pub open spec fn dry_run_now(st: AppState, req: CreatePurgeRequest, now: i128, r: Option<Result<DryRunResult, ApiError>>) -> bool {
    &&& representable(now as int)
    &&& (r is None <==> !dry_run_computable(st, req, now as int))
    &&& r matches Some(res) ==> dry_run_outcome(st, req, now as int, res)
}

impl PurgeResourceInfo {
    /// A copy of this preview.
    pub fn duplicate(&self) -> (r: PurgeResourceInfo)
        ensures
            r@ == self@,
    {
        PurgeResourceInfo {
            resource_id: self.resource_id,
            resource_name: self.resource_name.clone(),
            node_id: self.node_id,
            node_name: self.node_name.clone(),
            size_bytes: self.size_bytes,
            last_accessed: self.last_accessed,
        }
    }
}

/// The total size of previews, computed without overflow.
pub fn previews_total(v: &Vec<PurgeResourceInfo>) -> (t: u128)
    ensures
        t == info_total(info_views(v@)),
{
    let ghost s = info_views(v@);
    let mut t: u128 = 0;
    let mut i: usize = 0;
    while i < v.len()
        invariant
            s == info_views(v@),
            0 <= i <= v@.len(),
            t == info_total(s.take(i as int)),
            t <= i * 18446744073709551615,
        decreases v@.len() - i,
    {
        assert(s.take(i + 1).drop_last() =~= s.take(i as int));
        assert(v@.len() == v.len());
        assert((i + 1) * 18446744073709551615 <= 18446744073709551615 * 18446744073709551615 + 18446744073709551615) by (nonlinear_arith)
            requires i <= 18446744073709551615;
        assert((i + 1) * 18446744073709551615 == i * 18446744073709551615 + 18446744073709551615) by (nonlinear_arith);
        t = t + v[i].size_bytes as u128;
        i += 1;
    }
    assert(s.take(v@.len() as int) =~= s);
    t
}

impl AppState {
    /// Appends the previews of the publications on node `nid` (see `previews_on_node`).
    fn collect_on_node(&self, nid: u128, mimes: &Vec<String>, out: &mut Vec<PurgeResourceInfo>)
        requires
            self.wf(),
        ensures
            info_views(final(out)@) == info_views(old(out)@) + previews_on_node(*self, nid, texts(mimes@)),
    {
        let ghost ps = self.resource_publishes@;
        let ghost p = |q: ResourcePublish| q.node_id == nid && stored_and_listed(*self, q.resource_id, texts(mimes@));
        let ghost f = |q: ResourcePublish| preview(*self, q.resource_id, nid, last_access(self.resource_stats@, q.resource_id, q.node_id));
        let ghost base = info_views(out@);
        let mut i: usize = 0;
        while i < self.resource_publishes.len()
            invariant
                self.wf(),
                ps == self.resource_publishes@,
                p == (|q: ResourcePublish| q.node_id == nid && stored_and_listed(*self, q.resource_id, texts(mimes@))),
                f == (|q: ResourcePublish| preview(*self, q.resource_id, nid, last_access(self.resource_stats@, q.resource_id, q.node_id))),
                0 <= i <= ps.len(),
                info_views(out@) == base + ps.take(i as int).filter(p).map_values(f),
            decreases ps.len() - i,
        {
            proof { lemma_filter_map_step(ps, i as int, p, f); }
            let q = self.resource_publishes[i];
            if q.node_id == nid && self.stored_and_listed_exec(q.resource_id, mimes) {
                let pos = self.resource_pos(q.resource_id).unwrap();
                proof { self.lemma_resource_at(pos as int); }
                let r = &self.resources[pos];
                let info = PurgeResourceInfo {
                    resource_id: r.id,
                    resource_name: r.original_filename.clone(),
                    node_id: nid,
                    node_name: self.node_name_or_default(nid),
                    size_bytes: r.size_bytes,
                    last_accessed: self.last_access_of(q.resource_id, q.node_id),
                };
                let ghost before = out@;
                out.push(info);
                assert(info_views(out@) =~= info_views(before).push(f(q)));
            }
            i += 1;
        }
        assert(ps.take(ps.len() as int) =~= ps);
    }

    /// Appends the previews of the publications of resource `rid` (see `previews_of_resource`).
    fn collect_of_resource(&self, rid: u128, mimes: &Vec<String>, out: &mut Vec<PurgeResourceInfo>)
        requires
            self.wf(),
        ensures
            info_views(final(out)@) == info_views(old(out)@) + previews_of_resource(*self, rid, texts(mimes@)),
    {
        if !self.stored_and_listed_exec(rid, mimes) {
            assert(info_views(out@) =~= info_views(out@) + Seq::<PurgeInfoView>::empty());
            return;
        }
        let pos = self.resource_pos(rid).unwrap();
        proof { self.lemma_resource_at(pos as int); }
        let ghost ps = self.resource_publishes@;
        let ghost p = |q: ResourcePublish| q.resource_id == rid;
        let ghost f = |q: ResourcePublish| preview(*self, rid, q.node_id, last_access(self.resource_stats@, rid, q.node_id));
        let ghost base = info_views(out@);
        let mut i: usize = 0;
        while i < self.resource_publishes.len()
            invariant
                self.wf(),
                pos < self.resources@.len(),
                resource_with(self.resources@, rid) == self.resources@[pos as int],
                self.resources@[pos as int].id == rid,
                ps == self.resource_publishes@,
                p == (|q: ResourcePublish| q.resource_id == rid),
                f == (|q: ResourcePublish| preview(*self, rid, q.node_id, last_access(self.resource_stats@, rid, q.node_id))),
                0 <= i <= ps.len(),
                info_views(out@) == base + ps.take(i as int).filter(p).map_values(f),
            decreases ps.len() - i,
        {
            proof { lemma_filter_map_step(ps, i as int, p, f); }
            let q = self.resource_publishes[i];
            if q.resource_id == rid {
                let r = &self.resources[pos];
                let info = PurgeResourceInfo {
                    resource_id: r.id,
                    resource_name: r.original_filename.clone(),
                    node_id: q.node_id,
                    node_name: self.node_name_or_default(q.node_id),
                    size_bytes: r.size_bytes,
                    last_accessed: self.last_access_of(rid, q.node_id),
                };
                let ghost before = out@;
                out.push(info);
                assert(info_views(out@) =~= info_views(before).push(f(q)));
            }
            i += 1;
        }
        assert(ps.take(ps.len() as int) =~= ps);
    }

    /// Appends the previews of the stale statistics (see `previews_stale`).
    fn collect_stale(&self, nids: &Vec<u128>, mimes: &Vec<String>, cutoff: i128, out: &mut Vec<PurgeResourceInfo>)
        requires
            self.wf(),
        ensures
            info_views(final(out)@) == info_views(old(out)@) + previews_stale(*self, nids@, texts(mimes@), cutoff as int),
    {
        let ghost es = self.resource_stats@;
        let ghost p = |e: StatEntry| stale(e, nids@, cutoff as int) && stored_and_listed(*self, e.resource_id, texts(mimes@));
        let ghost f = |e: StatEntry| preview(*self, e.resource_id, e.node_id, e.stats.last_accessed_at);
        let ghost base = info_views(out@);
        let mut i: usize = 0;
        while i < self.resource_stats.len()
            invariant
                self.wf(),
                es == self.resource_stats@,
                p == (|e: StatEntry| stale(e, nids@, cutoff as int) && stored_and_listed(*self, e.resource_id, texts(mimes@))),
                f == (|e: StatEntry| preview(*self, e.resource_id, e.node_id, e.stats.last_accessed_at)),
                0 <= i <= es.len(),
                info_views(out@) == base + es.take(i as int).filter(p).map_values(f),
            decreases es.len() - i,
        {
            proof { lemma_filter_map_step(es, i as int, p, f); }
            let e = self.resource_stats[i];
            let recent = match e.stats.last_accessed_at { Some(l) => l >= cutoff, None => false };
            if contains_id(nids, e.node_id) && !recent && self.stored_and_listed_exec(e.resource_id, mimes) {
                let pos = self.resource_pos(e.resource_id).unwrap();
                proof { self.lemma_resource_at(pos as int); }
                let r = &self.resources[pos];
                let info = PurgeResourceInfo {
                    resource_id: r.id,
                    resource_name: r.original_filename.clone(),
                    node_id: e.node_id,
                    node_name: self.node_name_or_default(e.node_id),
                    size_bytes: r.size_bytes,
                    last_accessed: e.stats.last_accessed_at,
                };
                let ghost before = out@;
                out.push(info);
                assert(info_views(out@) =~= info_views(before).push(f(e)));
            }
            i += 1;
        }
        assert(es.take(es.len() as int) =~= es);
    }

    /// The previews of a purge request of type `t` at `now`, in the order they
    /// are found (see `dry_run_previews`).
    pub fn collect_previews(&self, t: PurgeType, req: &CreatePurgeRequest, now: i128) -> (v: Vec<PurgeResourceInfo>)
        requires
            self.wf(),
            t == PurgeType::ByTime ==> representable(days_before(now as int, stale_days(req.days_not_accessed))),
        ensures
            info_views(v@) == dry_run_previews(*self, t, *req, now as int),
    {
        let node_ids = match &req.node_ids { Some(v) => copy_ids(v), None => Vec::new() };
        let resource_ids = match &req.resource_ids { Some(v) => copy_ids(v), None => Vec::new() };
        let mime_types = match &req.mime_types { Some(v) => copy_texts(v), None => Vec::new() };
        assert(node_ids@ == ids_or_empty(req.node_ids));
        assert(resource_ids@ == ids_or_empty(req.resource_ids));
        assert(texts(mime_types@) == texts_or_empty(req.mime_types));
        let mut out: Vec<PurgeResourceInfo> = Vec::new();
        match t {
            PurgeType::ByNode => {
                let mut i: usize = 0;
                while i < node_ids.len()
                    invariant
                        self.wf(),
                        0 <= i <= node_ids@.len(),
                        info_views(out@) == previews_on_nodes(*self, node_ids@.take(i as int), texts(mime_types@)),
                    decreases node_ids@.len() - i,
                {
                    assert(node_ids@.take(i + 1).drop_last() =~= node_ids@.take(i as int));
                    self.collect_on_node(node_ids[i], &mime_types, &mut out);
                    i += 1;
                }
                assert(node_ids@.take(node_ids@.len() as int) =~= node_ids@);
            },
            PurgeType::ByResource => {
                let mut i: usize = 0;
                while i < resource_ids.len()
                    invariant
                        self.wf(),
                        0 <= i <= resource_ids@.len(),
                        info_views(out@) == previews_of_resources(*self, resource_ids@.take(i as int), texts(mime_types@)),
                    decreases resource_ids@.len() - i,
                {
                    assert(resource_ids@.take(i + 1).drop_last() =~= resource_ids@.take(i as int));
                    self.collect_of_resource(resource_ids[i], &mime_types, &mut out);
                    i += 1;
                }
                assert(resource_ids@.take(resource_ids@.len() as int) =~= resource_ids@);
            },
            PurgeType::ByTime => {
                let days = match req.days_not_accessed { Some(d) => d, None => DEFAULT_STALE_DAYS };
                let cutoff = time_cutoff(now, days);
                assert(info_views(out@) =~= Seq::<PurgeInfoView>::empty());
                self.collect_stale(&node_ids, &mime_types, cutoff, &mut out);
                assert(info_views(out@) =~= previews_stale(*self, node_ids@, texts(mime_types@), cutoff as int));
            },
        }
        out
    }

    /// What a purge request would remove at `now`: refused with "Invalid purge
    /// type" when it names no purge type; otherwise the previews of
    /// `dry_run_previews`, largest first (equal sizes in the order found),
    /// their number and their total size. Nothing is checked of the listed
    /// nodes and resources, and nothing is changed.
    pub fn dry_run_purge_at(&self, req: &CreatePurgeRequest, now: i128) -> (r: Result<DryRunResult, ApiError>)
        requires
            self.wf(),
            purge_type_named(req.purge_type@) matches Some(t) ==> {
                &&& (t == PurgeType::ByTime ==> representable(days_before(now as int, stale_days(req.days_not_accessed))))
                &&& info_total(dry_run_previews(*self, t, *req, now as int)) <= u64::MAX
            },
        ensures
            dry_run_outcome(*self, *req, now as int, r),
    {
        let t = match parse_purge_type(req.purge_type.as_str()) {
            Some(t) => t,
            None => return refuse(ErrorKind::BadRequest, "Invalid purge type"),
        };
        let raw = self.collect_previews(t, req, now);
        let ghost rv = info_views(raw@);
        let total = previews_total(&raw) as u64;
        let mut keys: Vec<i128> = Vec::new();
        let mut k: usize = 0;
        while k < raw.len()
            invariant
                rv == info_views(raw@),
                0 <= k <= raw@.len(),
                keys@ == info_sizes(rv).take(k as int),
            decreases raw@.len() - k,
        {
            keys.push(raw[k].size_bytes as i128);
            assert(keys@ =~= info_sizes(rv).take(k + 1));
            k += 1;
        }
        assert(keys@ =~= info_sizes(rv));
        let order = desc_order(&keys);
        let mut items: Vec<PurgeResourceInfo> = Vec::new();
        let mut j: usize = 0;
        while j < order.len()
            invariant
                rv == info_views(raw@),
                is_desc_order(order@, info_sizes(rv)),
                0 <= j <= order@.len(),
                info_views(items@) == arrange(rv, order@).take(j as int),
            decreases order@.len() - j,
        {
            let pos = order[j];
            let ghost before = items@;
            items.push(raw[pos].duplicate());
            assert(info_views(items@) =~= info_views(before).push(rv[pos as int]));
            assert(info_views(items@) =~= arrange(rv, order@).take(j + 1));
            j += 1;
        }
        assert(arrange(rv, order@).take(order@.len() as int) =~= arrange(rv, order@));
        Ok(DryRunResult { total_resources: raw.len() as u64, resources: items, total_size_bytes: total })
    }

    /// What a purge request would remove, now (see `dry_run_now`). `None`
    /// exactly where the request names a purge type but the preview cannot be
    /// computed at the instant read from the clock: the cutoff of a time-based
    /// request is not an instant chrono represents, or the total size exceeds
    /// `u64`. Previews by node or by resource do not depend on the instant.
    pub fn dry_run_purge(&self, req: &CreatePurgeRequest) -> (r: Option<Result<DryRunResult, ApiError>>)
        requires
            self.wf(),
        ensures
            exists|now: i128| #[trigger] dry_run_now(*self, *req, now, r),
            purge_type_named(req.purge_type@) matches Some(t) ==> (t != PurgeType::ByTime
                ==> (r is None <==> info_total(dry_run_previews(*self, t, *req, 0)) > u64::MAX)),
    {
        let now = now_nanos();
        let t = match parse_purge_type(req.purge_type.as_str()) {
            Some(t) => t,
            None => {
                let res = refuse(ErrorKind::BadRequest, "Invalid purge type");
                assert(dry_run_outcome(*self, *req, now as int, res));
                assert(dry_run_now(*self, *req, now, Some(res)));
                return Some(res);
            },
        };
        if t == PurgeType::ByTime {
            let days = match req.days_not_accessed { Some(d) => d, None => DEFAULT_STALE_DAYS };
            if !cutoff_representable(now, days) {
                assert(dry_run_now(*self, *req, now, None));
                return None;
            }
        }
        let raw = self.collect_previews(t, req, now);
        proof {
            if t != PurgeType::ByTime {
                assert(dry_run_previews(*self, t, *req, now as int) == dry_run_previews(*self, t, *req, 0));
            }
        }
        if previews_total(&raw) > u64::MAX as u128 {
            assert(dry_run_now(*self, *req, now, None));
            return None;
        }
        let res = self.dry_run_purge_at(req, now);
        assert(dry_run_now(*self, *req, now, Some(res)));
        Some(res)
    }
}

/// The effect of running a purge task at `now`: when the task `task_id` is
/// stored, the removals of its keys (`purge_items`) are scheduled five minutes
/// later and the task is done; otherwise nothing changes.
pub open spec fn purge_run_outcome(old: AppState, new: AppState, task_id: u128, now: i128) -> bool {
    if exists|i: int| 0 <= i < old.purge_tasks@.len() && old.purge_tasks@[i].task_id == task_id {
        let i = choose|i: int| 0 <= i < old.purge_tasks@.len() && old.purge_tasks@[i].task_id == task_id;
        let t = old.purge_tasks@[i]@;
        let items = purge_items(old, t, now as int);
        &&& purge_views(new.purge_tasks@) == purge_views(old.purge_tasks@).update(i, purge_finished(t, items.len(), now))
        &&& delay_entries(new.delayed_purge_queue)
            == scheduled(delay_entries(old.delayed_purge_queue), items, (now + PURGE_DELAY_MINUTES * MINUTE_NANOS) as i128)
        &&& new.resources == old.resources
        &&& new.resource_stats == old.resource_stats
        &&& new.nodes == old.nodes
        &&& new.resource_publishes == old.resource_publishes
        &&& new.preheat_tasks == old.preheat_tasks
        &&& new.preheat_queue == old.preheat_queue
        &&& new.audit_logs == old.audit_logs
        &&& new.request_history == old.request_history
    } else {
        new.same(&old)
    }
}

/// The instants a run of task `task_id` at `now` computes are ones chrono represents.
pub open spec fn purge_run_computable(st: AppState, task_id: u128, now: int) -> bool {
    &&& representable(now + PURGE_DELAY_MINUTES * MINUTE_NANOS)
    &&& forall|i: int| 0 <= i < st.purge_tasks@.len() && #[trigger] st.purge_tasks@[i].task_id == task_id
        && st.purge_tasks@[i].purge_type == PurgeType::ByTime
        ==> representable(days_before(now, stale_days(st.purge_tasks@[i].days_not_accessed)))
}

/// Running purge task `task_id` from `old` into `new` at the instant `now`
/// read from the clock, with answer `ran`: the instant is representable; the
/// run happens exactly when its instants are computable at `now`, with the
/// effect of `purge_run_outcome`; otherwise nothing changes.
pub open spec fn purge_run_now(old: AppState, new: AppState, task_id: u128, now: i128, ran: bool) -> bool {
    &&& representable(now as int)
    &&& ran == purge_run_computable(old, task_id, now as int)
    &&& ran ==> purge_run_outcome(old, new, task_id, now)
    &&& !ran ==> new.same(&old)
}

/// Some delayed removal of resource `rid` from node `nid` is due at `now`.
pub open spec fn due_pair(q: Map<(u128, u128, i128), i128>, now: int, rid: u128, nid: u128) -> bool {
    exists|t: i128| #[trigger] q.contains_key((rid, nid, t)) && t <= now
}

/// The effect of removing, at `now`, what is due: `removed` lists exactly the
/// queued removals at or before `now`, only the later ones stay queued, and
/// the publications and statistics of the removed (resource, node) pairs
/// are dropped; everything else is unchanged.
pub open spec fn cleanup_outcome(old: AppState, new: AppState, now: int, removed: Seq<(u128, u128, i128)>) -> bool {
    let q0 = delay_entries(old.delayed_purge_queue);
    let q1 = delay_entries(new.delayed_purge_queue);
    &&& forall|k: (u128, u128, i128)| removed.contains(k) <==> #[trigger] q0.contains_key(k) && k.2 <= now
    &&& forall|k: (u128, u128, i128)| #[trigger] q1.contains_key(k) <==> q0.contains_key(k) && k.2 > now
    &&& forall|k: (u128, u128, i128)| #[trigger] q1.contains_key(k) ==> q1[k] == q0[k]
    &&& new.resource_publishes@ == old.resource_publishes@.filter(
        |p: ResourcePublish| !due_pair(q0, now, p.resource_id, p.node_id),
    )
    &&& new.resource_stats@ == old.resource_stats@.filter(
        |e: StatEntry| !due_pair(q0, now, e.resource_id, e.node_id),
    )
    &&& new.resources == old.resources
    &&& new.nodes == old.nodes
    &&& new.preheat_tasks == old.preheat_tasks
    &&& new.preheat_queue == old.preheat_queue
    &&& new.purge_tasks == old.purge_tasks
    &&& new.audit_logs == old.audit_logs
    &&& new.request_history == old.request_history
}

/// The query's status, where it names a known one.
pub open spec fn status_filter(s: Option<Seq<char>>) -> Option<TaskStatus> {
    match s { Some(t) => task_status_named(t), None => None }
}

/// The query's purge type, where it names a known one.
pub open spec fn type_filter(s: Option<Seq<char>>) -> Option<PurgeType> {
    match s { Some(t) => purge_type_named(t), None => None }
}

/// The query names an unknown status.
pub open spec fn bad_status(s: Option<Seq<char>>) -> bool {
    s matches Some(t) && task_status_named(t) is None
}

/// The query names an unknown purge type.
pub open spec fn bad_type(s: Option<Seq<char>>) -> bool {
    s matches Some(t) && purge_type_named(t) is None
}

impl AppState {
    /// Appends the keys a running purge takes on node `nid`.
    fn items_on_node(&self, nid: u128, mimes: &Vec<String>, out: &mut Vec<(u128, u128)>)
        requires
            self.wf(),
        ensures
            final(out)@ == old(out)@ + purge_items_on_node(*self, nid, texts(mimes@)),
    {
        let ghost ps = self.resource_publishes@;
        let ghost p = |q: ResourcePublish| q.node_id == nid && mime_allows(self.resources@, q.resource_id, texts(mimes@));
        let ghost f = |q: ResourcePublish| (q.resource_id, q.node_id);
        let ghost base = out@;
        let mut i: usize = 0;
        while i < self.resource_publishes.len()
            invariant
                self.wf(),
                ps == self.resource_publishes@,
                p == (|q: ResourcePublish| q.node_id == nid && mime_allows(self.resources@, q.resource_id, texts(mimes@))),
                f == (|q: ResourcePublish| (q.resource_id, q.node_id)),
                0 <= i <= ps.len(),
                out@ == base + ps.take(i as int).filter(p).map_values(f),
            decreases ps.len() - i,
        {
            proof { lemma_filter_map_step(ps, i as int, p, f); }
            let q = self.resource_publishes[i];
            if q.node_id == nid && self.mime_allows_resource(q.resource_id, mimes) {
                out.push((q.resource_id, q.node_id));
            }
            i += 1;
        }
        assert(ps.take(ps.len() as int) =~= ps);
    }

    /// Appends the keys a running purge takes of resource `rid`.
    fn items_of_resource(&self, rid: u128, mimes: &Vec<String>, out: &mut Vec<(u128, u128)>)
        requires
            self.wf(),
        ensures
            final(out)@ == old(out)@ + purge_items_of_resource(*self, rid, texts(mimes@)),
    {
        let allowed = self.mime_allows_resource(rid, mimes);
        let ghost ps = self.resource_publishes@;
        let ghost p = |q: ResourcePublish| q.resource_id == rid && mime_allows(self.resources@, rid, texts(mimes@));
        let ghost f = |q: ResourcePublish| (q.resource_id, q.node_id);
        let ghost base = out@;
        let mut i: usize = 0;
        while i < self.resource_publishes.len()
            invariant
                self.wf(),
                allowed == mime_allows(self.resources@, rid, texts(mimes@)),
                ps == self.resource_publishes@,
                p == (|q: ResourcePublish| q.resource_id == rid && mime_allows(self.resources@, rid, texts(mimes@))),
                f == (|q: ResourcePublish| (q.resource_id, q.node_id)),
                0 <= i <= ps.len(),
                out@ == base + ps.take(i as int).filter(p).map_values(f),
            decreases ps.len() - i,
        {
            proof { lemma_filter_map_step(ps, i as int, p, f); }
            let q = self.resource_publishes[i];
            if q.resource_id == rid && allowed {
                out.push((q.resource_id, q.node_id));
            }
            i += 1;
        }
        assert(ps.take(ps.len() as int) =~= ps);
    }

    /// Appends the keys of the stale statistics a time-based purge takes.
    fn items_stale(&self, nids: &Vec<u128>, mimes: &Vec<String>, cutoff: i128, out: &mut Vec<(u128, u128)>)
        requires
            self.wf(),
        ensures
            final(out)@ == old(out)@ + purge_items_stale(*self, nids@, texts(mimes@), cutoff as int),
    {
        let ghost es = self.resource_stats@;
        let ghost p = |e: StatEntry| stale(e, nids@, cutoff as int) && mime_allows(self.resources@, e.resource_id, texts(mimes@));
        let ghost f = |e: StatEntry| (e.resource_id, e.node_id);
        let ghost base = out@;
        let mut i: usize = 0;
        while i < self.resource_stats.len()
            invariant
                self.wf(),
                es == self.resource_stats@,
                p == (|e: StatEntry| stale(e, nids@, cutoff as int) && mime_allows(self.resources@, e.resource_id, texts(mimes@))),
                f == (|e: StatEntry| (e.resource_id, e.node_id)),
                0 <= i <= es.len(),
                out@ == base + es.take(i as int).filter(p).map_values(f),
            decreases es.len() - i,
        {
            proof { lemma_filter_map_step(es, i as int, p, f); }
            let e = self.resource_stats[i];
            let recent = match e.stats.last_accessed_at { Some(l) => l >= cutoff, None => false };
            if contains_id(nids, e.node_id) && !recent && self.mime_allows_resource(e.resource_id, mimes) {
                out.push((e.resource_id, e.node_id));
            }
            i += 1;
        }
        assert(es.take(es.len() as int) =~= es);
    }

    /// The keys a running purge task takes at `now` (see `purge_items`).
    pub fn collect_purge_items(&self, task: &PurgeTask, now: i128) -> (v: Vec<(u128, u128)>)
        requires
            self.wf(),
            task.purge_type == PurgeType::ByTime ==> representable(days_before(now as int, stale_days(task.days_not_accessed))),
        ensures
            v@ == purge_items(*self, task@, now as int),
    {
        let mut out: Vec<(u128, u128)> = Vec::new();
        match task.purge_type {
            PurgeType::ByNode => {
                let mut i: usize = 0;
                while i < task.node_ids.len()
                    invariant
                        self.wf(),
                        0 <= i <= task.node_ids@.len(),
                        out@ == purge_items_on_nodes(*self, task.node_ids@.take(i as int), texts(task.mime_types@)),
                    decreases task.node_ids@.len() - i,
                {
                    assert(task.node_ids@.take(i + 1).drop_last() =~= task.node_ids@.take(i as int));
                    self.items_on_node(task.node_ids[i], &task.mime_types, &mut out);
                    i += 1;
                }
                assert(task.node_ids@.take(task.node_ids@.len() as int) =~= task.node_ids@);
            },
            PurgeType::ByResource => {
                let mut i: usize = 0;
                while i < task.resource_ids.len()
                    invariant
                        self.wf(),
                        0 <= i <= task.resource_ids@.len(),
                        out@ == purge_items_of_resources(*self, task.resource_ids@.take(i as int), texts(task.mime_types@)),
                    decreases task.resource_ids@.len() - i,
                {
                    assert(task.resource_ids@.take(i + 1).drop_last() =~= task.resource_ids@.take(i as int));
                    self.items_of_resource(task.resource_ids[i], &task.mime_types, &mut out);
                    i += 1;
                }
                assert(task.resource_ids@.take(task.resource_ids@.len() as int) =~= task.resource_ids@);
            },
            PurgeType::ByTime => {
                let days = match task.days_not_accessed { Some(d) => d, None => DEFAULT_STALE_DAYS };
                let cutoff = time_cutoff(now, days);
                self.items_stale(&task.node_ids, &task.mime_types, cutoff, &mut out);
                assert(out@ =~= purge_items_stale(*self, task.node_ids@, texts(task.mime_types@), cutoff as int));
            },
        }
        out
    }

    /// Runs purge task `task_id` at `now` (see `purge_run_outcome`): marks it
    /// running, schedules the removal of every key it takes five minutes
    /// later, and marks it done with that many keys.
    pub fn execute_purge_task_at(&mut self, task_id: u128, now: i128)
        requires
            old(self).wf(),
            purge_run_computable(*old(self), task_id, now as int),
        ensures
            final(self).wf(),
            purge_run_outcome(*old(self), *final(self), task_id, now),
    {
        let pos = match self.purge_pos(task_id) {
            Some(i) => i,
            None => return,
        };
        proof {
            let k = choose|k: int| 0 <= k < old(self).purge_tasks@.len() && old(self).purge_tasks@[k].task_id == task_id;
            if k != pos {
                assert(purge_ids(old(self).purge_tasks@)[k] == purge_ids(old(self).purge_tasks@)[pos as int]);
                assert(false);
            }
        }
        let task = self.purge_tasks[pos].duplicate();
        let delete_time: i128 = now + PURGE_DELAY_MINUTES * MINUTE_NANOS;
        let items = self.collect_purge_items(&task, now);
        let ghost q0 = delay_entries(self.delayed_purge_queue);
        let mut k: usize = 0;
        while k < items.len()
            invariant
                0 <= k <= items@.len(),
                delay_entries(self.delayed_purge_queue) == scheduled(q0, items@.take(k as int), delete_time),
                delay_entries(self.delayed_purge_queue).dom().finite(),
                forall|key: (u128, u128, i128)| #[trigger] delay_entries(self.delayed_purge_queue).contains_key(key)
                    ==> delay_entries(self.delayed_purge_queue)[key] == key.2,
                self.resources == old(self).resources,
                self.resource_stats == old(self).resource_stats,
                self.nodes == old(self).nodes,
                self.resource_publishes == old(self).resource_publishes,
                self.preheat_tasks == old(self).preheat_tasks,
                self.preheat_queue == old(self).preheat_queue,
                self.purge_tasks == old(self).purge_tasks,
                self.audit_logs == old(self).audit_logs,
                self.request_history == old(self).request_history,
            decreases items@.len() - k,
        {
            let (r, n) = items[k];
            delay_queue_push(&mut self.delayed_purge_queue, (r, n, delete_time), delete_time);
            assert(items@.take(k + 1).drop_last() =~= items@.take(k as int));
            k += 1;
        }
        assert(items@.take(items@.len() as int) =~= items@);
        let count = items.len() as u64;
        let done = PurgeTask {
            status: TaskStatus::Done,
            total: count,
            done: count,
            started_at: Some(now),
            finished_at: Some(now),
            ..task
        };
        let ghost before = self.purge_tasks@;
        self.purge_tasks.set(pos, done);
        proof {
            assert(purge_views(self.purge_tasks@) =~= purge_views(before).update(pos as int, done@));
            assert(purge_ids(self.purge_tasks@) =~= purge_ids(before));
        }
    }

    /// Runs purge task `task_id` now (see `purge_run_now`). Returns `false`,
    /// changing nothing, exactly where an instant the run computes from the
    /// instant read from the clock is not one chrono represents.
    pub fn execute_purge_task(&mut self, task_id: u128) -> (ran: bool)
        requires
            old(self).wf(),
        ensures
            final(self).wf(),
            exists|now: i128| #[trigger] purge_run_now(*old(self), *final(self), task_id, now, ran),
            !ran ==> final(self).same(&*old(self)),
    {
        let now = now_nanos();
        if now > MAX_INSTANT - PURGE_DELAY_MINUTES * MINUTE_NANOS {
            assert(purge_run_now(*old(self), *self, task_id, now, false));
            return false;
        }
        if let Some(i) = self.purge_pos(task_id) {
            if self.purge_tasks[i].purge_type == PurgeType::ByTime {
                let days = match self.purge_tasks[i].days_not_accessed { Some(d) => d, None => DEFAULT_STALE_DAYS };
                if !cutoff_representable(now, days) {
                    assert(!purge_run_computable(*old(self), task_id, now as int));
                    assert(purge_run_now(*old(self), *self, task_id, now, false));
                    return false;
                }
            }
            proof {
                assert forall|j: int| 0 <= j < self.purge_tasks@.len() && #[trigger] self.purge_tasks@[j].task_id == task_id
                    && self.purge_tasks@[j].purge_type == PurgeType::ByTime
                    implies representable(days_before(now as int, stale_days(self.purge_tasks@[j].days_not_accessed))) by {
                    if j != i {
                        assert(purge_ids(self.purge_tasks@)[j] == purge_ids(self.purge_tasks@)[i as int]);
                    }
                }
            }
        }
        self.execute_purge_task_at(task_id, now);
        assert(purge_run_now(*old(self), *self, task_id, now, true));
        true
    }

    /// Removes the publications whose delayed removal is due at `now`: every
    /// queued removal at or before `now` leaves the queue, and the publication
    /// and statistics of its resource on its node are dropped. Returns the
    /// removals taken from the queue.
    pub fn run_delayed_cleanup_at(&mut self, now: i128) -> (removed: Vec<(u128, u128, i128)>)
        requires
            old(self).wf(),
        ensures
            final(self).wf(),
            cleanup_outcome(*old(self), *final(self), now as int, removed@),
    {
        let ghost q0 = delay_entries(self.delayed_purge_queue);
        let mut removed: Vec<(u128, u128, i128)> = Vec::new();
        loop
            invariant
                delay_entries(self.delayed_purge_queue).dom().finite(),
                forall|k: (u128, u128, i128)| #[trigger] delay_entries(self.delayed_purge_queue).contains_key(k)
                    ==> delay_entries(self.delayed_purge_queue)[k] == k.2,
                forall|k: (u128, u128, i128)| #[trigger] delay_entries(self.delayed_purge_queue).contains_key(k)
                    <==> q0.contains_key(k) && !removed@.contains(k),
                forall|k: (u128, u128, i128)| #[trigger] delay_entries(self.delayed_purge_queue).contains_key(k)
                    ==> delay_entries(self.delayed_purge_queue)[k] == q0[k],
                forall|j: int| 0 <= j < removed@.len() ==> q0.contains_key(#[trigger] removed@[j]) && removed@[j].2 <= now,
                forall|k: (u128, u128, i128)| q0.contains_key(k) ==> q0[k] == k.2,
                self.resources == old(self).resources,
                self.resource_stats == old(self).resource_stats,
                self.nodes == old(self).nodes,
                self.resource_publishes == old(self).resource_publishes,
                self.preheat_tasks == old(self).preheat_tasks,
                self.preheat_queue == old(self).preheat_queue,
                self.purge_tasks == old(self).purge_tasks,
                self.audit_logs == old(self).audit_logs,
                self.request_history == old(self).request_history,
                q0 == delay_entries(old(self).delayed_purge_queue),
            ensures
                forall|k: (u128, u128, i128)| #[trigger] delay_entries(self.delayed_purge_queue).contains_key(k) ==> k.2 > now,
            decreases delay_entries(self.delayed_purge_queue).dom().len(),
        {
            match delay_queue_peek(&self.delayed_purge_queue) {
                None => {
                    break;
                },
                Some((item, at)) => {
                    if item.2 <= now {
                        let ghost cur = delay_entries(self.delayed_purge_queue);
                        match delay_queue_pop(&mut self.delayed_purge_queue) {
                            None => {
                                break;
                            },
                            Some((k, _)) => {
                                proof {
                                    assert(cur.contains_key(item));
                                    assert(cur[k] <= cur[item]);
                                    assert(cur.dom().remove(k) =~= delay_entries(self.delayed_purge_queue).dom());
                                }
                                let ghost before = removed@;
                                removed.push(k);
                                proof {
                                    assert forall|x: (u128, u128, i128)| #[trigger] delay_entries(self.delayed_purge_queue).contains_key(x)
                                        <==> q0.contains_key(x) && !removed@.contains(x) by {
                                        if removed@.contains(x) && x != k {
                                            let j = choose|j: int| 0 <= j < removed@.len() && removed@[j] == x;
                                            assert(before[j] == x);
                                            assert(before.contains(x));
                                        }
                                        if before.contains(x) {
                                            let j = choose|j: int| 0 <= j < before.len() && before[j] == x;
                                            assert(removed@[j] == x);
                                        }
                                        if x == k {
                                            assert(removed@[removed@.len() - 1] == k);
                                        }
                                    }
                                }
                            },
                        }
                    } else {
                        break;
                    }
                },
            }
        }
        let pubs = self.keep_publishes_not_removed(&removed);
        let stats = self.keep_stats_not_removed(&removed);
        proof {
            assert forall|r: u128, n: u128| due_pair(q0, now as int, r, n) <==> removes_pair(removed@, r, n) by {
                if due_pair(q0, now as int, r, n) {
                    let t = choose|t: i128| #[trigger] q0.contains_key((r, n, t)) && t <= now;
                    if !removed@.contains((r, n, t)) {
                        assert(delay_entries(self.delayed_purge_queue).contains_key((r, n, t)));
                    }
                    assert(removed@.contains((r, n, t)));
                    let j = choose|j: int| 0 <= j < removed@.len() && removed@[j] == (r, n, t);
                    assert(removed@[j].0 == r && removed@[j].1 == n);
                }
                if removes_pair(removed@, r, n) {
                    let j = choose|j: int| 0 <= j < removed@.len() && (#[trigger] removed@[j]).0 == r && removed@[j].1 == n;
                    let k = removed@[j];
                    assert(q0.contains_key(k) && k.2 <= now);
                    assert(q0.contains_key((r, n, k.2)));
                }
            }
            assert forall|k: (u128, u128, i128)| removed@.contains(k) <==> #[trigger] q0.contains_key(k) && k.2 <= now by {
                if removed@.contains(k) {
                    let j = choose|j: int| 0 <= j < removed@.len() && removed@[j] == k;
                    assert(q0.contains_key(removed@[j]));
                }
                if q0.contains_key(k) && k.2 <= now && !removed@.contains(k) {
                    assert(delay_entries(self.delayed_purge_queue).contains_key(k));
                }
            }
            let p1 = |p: ResourcePublish| !due_pair(q0, now as int, p.resource_id, p.node_id);
            let p2 = |p: ResourcePublish| !removes_pair(removed@, p.resource_id, p.node_id);
            assert(p1 =~= p2);
            let e1 = |e: StatEntry| !due_pair(q0, now as int, e.resource_id, e.node_id);
            let e2 = |e: StatEntry| !removes_pair(removed@, e.resource_id, e.node_id);
            assert(e1 =~= e2);
        }
        self.resource_publishes = pubs;
        self.resource_stats = stats;
        removed
    }
}

/// One of the removals `removed` is of resource `rid` on node `nid`.
pub open spec fn removes_pair(removed: Seq<(u128, u128, i128)>, rid: u128, nid: u128) -> bool {
    exists|j: int| 0 <= j < removed.len() && (#[trigger] removed[j]).0 == rid && removed[j].1 == nid
}

/// One of the removals `removed` is of resource `rid` on node `nid`.
pub fn removes_pair_exec(removed: &Vec<(u128, u128, i128)>, rid: u128, nid: u128) -> (r: bool)
    ensures
        r == removes_pair(removed@, rid, nid),
{
    let mut j: usize = 0;
    while j < removed.len()
        invariant
            0 <= j <= removed@.len(),
            forall|k: int| 0 <= k < j ==> !((#[trigger] removed@[k]).0 == rid && removed@[k].1 == nid),
        decreases removed@.len() - j,
    {
        if removed[j].0 == rid && removed[j].1 == nid {
            assert(removed@[j as int].0 == rid);
            return true;
        }
        j += 1;
    }
    false
}

impl AppState {
    /// The publications that none of `removed` removes, in their order.
    pub fn keep_publishes_not_removed(&self, removed: &Vec<(u128, u128, i128)>) -> (v: Vec<ResourcePublish>)
        requires
            self.wf(),
        ensures
            v@ == self.resource_publishes@.filter(|p: ResourcePublish| !removes_pair(removed@, p.resource_id, p.node_id)),
            distinct(publish_keys(v@)),
    {
        let ghost ps = self.resource_publishes@;
        let ghost keep = |p: ResourcePublish| !removes_pair(removed@, p.resource_id, p.node_id);
        let mut v: Vec<ResourcePublish> = Vec::new();
        let mut i: usize = 0;
        while i < self.resource_publishes.len()
            invariant
                ps == self.resource_publishes@,
                keep == (|p: ResourcePublish| !removes_pair(removed@, p.resource_id, p.node_id)),
                0 <= i <= ps.len(),
                v@ == ps.take(i as int).filter(keep),
            decreases ps.len() - i,
        {
            proof { lemma_filter_map_step(ps, i as int, keep, |p: ResourcePublish| p); }
            let p = self.resource_publishes[i];
            if !removes_pair_exec(removed, p.resource_id, p.node_id) {
                v.push(p);
            }
            i += 1;
        }
        assert(ps.take(ps.len() as int) =~= ps);
        proof {
            lemma_distinct_filter(ps, |p: ResourcePublish| (p.resource_id, p.node_id), keep);
            assert(publish_keys(ps) =~= ps.map_values(|p: ResourcePublish| (p.resource_id, p.node_id)));
            assert(publish_keys(v@) =~= v@.map_values(|p: ResourcePublish| (p.resource_id, p.node_id)));
        }
        v
    }

    /// The statistics that none of `removed` removes, in their order.
    pub fn keep_stats_not_removed(&self, removed: &Vec<(u128, u128, i128)>) -> (v: Vec<StatEntry>)
        requires
            self.wf(),
        ensures
            v@ == self.resource_stats@.filter(|e: StatEntry| !removes_pair(removed@, e.resource_id, e.node_id)),
            distinct(stat_keys(v@)),
    {
        let ghost es = self.resource_stats@;
        let ghost keep = |e: StatEntry| !removes_pair(removed@, e.resource_id, e.node_id);
        let mut v: Vec<StatEntry> = Vec::new();
        let mut i: usize = 0;
        while i < self.resource_stats.len()
            invariant
                es == self.resource_stats@,
                keep == (|e: StatEntry| !removes_pair(removed@, e.resource_id, e.node_id)),
                0 <= i <= es.len(),
                v@ == es.take(i as int).filter(keep),
            decreases es.len() - i,
        {
            proof { lemma_filter_map_step(es, i as int, keep, |e: StatEntry| e); }
            let e = self.resource_stats[i];
            if !removes_pair_exec(removed, e.resource_id, e.node_id) {
                v.push(e);
            }
            i += 1;
        }
        assert(es.take(es.len() as int) =~= es);
        proof {
            lemma_distinct_filter(es, |e: StatEntry| (e.resource_id, e.node_id), keep);
            assert(stat_keys(es) =~= es.map_values(|e: StatEntry| (e.resource_id, e.node_id)));
            assert(stat_keys(v@) =~= v@.map_values(|e: StatEntry| (e.resource_id, e.node_id)));
        }
        v
    }
}

impl AppState {
    /// Creates a purge task now, with fresh identifiers (see
    /// `create_purge_now`). `None` exactly where the request is accepted but
    /// its count cannot be computed at the instant read from the clock: its
    /// time cutoff is not an instant chrono represents, or the count exceeds
    /// `u64`; nothing changes then.
    pub fn create_purge_task(&mut self, req: &CreatePurgeRequest) -> (r: Option<Result<u128, ApiError>>)
        requires
            old(self).wf(),
        ensures
            final(self).wf(),
            exists|task_id: u128, log_id: u128, now: i128|
                #[trigger] create_purge_now(*old(self), *final(self), *req, task_id, log_id, now, r),
            r is None ==> final(self).same(&*old(self)),
    {
        let task_id = new_id();
        let log_id = new_id();
        let now = now_nanos();
        let t = match self.validate_purge_request(req) {
            Ok(t) => t,
            Err(e) => {
                let res: Result<u128, ApiError> = Err(e);
                assert(create_purge_outcome(*old(self), *self, *req, task_id, log_id, now, res));
                assert(create_purge_now(*old(self), *self, *req, task_id, log_id, now, Some(res)));
                return Some(res);
            },
        };
        if t == PurgeType::ByTime {
            let days = match req.days_not_accessed { Some(d) => d, None => 0 };
            if !cutoff_representable(now, days) {
                assert(!purge_request_computable(*old(self), *req, now as int));
                assert(create_purge_now(*old(self), *self, *req, task_id, log_id, now, None));
                return None;
            }
        }
        let node_ids = match &req.node_ids { Some(v) => copy_ids(v), None => Vec::new() };
        let resource_ids = match &req.resource_ids { Some(v) => copy_ids(v), None => Vec::new() };
        let mime_types = match &req.mime_types { Some(v) => copy_texts(v), None => Vec::new() };
        assert(texts(mime_types@) == texts_or_empty(req.mime_types));
        let count = self.purge_target_count(t, &node_ids, &resource_ids, &mime_types, req.days_not_accessed, now);
        if count > u64::MAX as u128 {
            assert(!purge_request_computable(*old(self), *req, now as int));
            assert(create_purge_now(*old(self), *self, *req, task_id, log_id, now, None));
            return None;
        }
        let res = self.create_purge_task_at(req, task_id, log_id, now);
        assert(create_purge_now(*old(self), *self, *req, task_id, log_id, now, Some(res)));
        Some(res)
    }

    /// The purge task `task_id`, or "Task not found".
    pub fn get_purge_task(&self, task_id: u128) -> (r: Result<PurgeTask, ApiError>)
        requires
            self.wf(),
        ensures
            match r {
                Ok(t) => exists|i: int| 0 <= i < self.purge_tasks@.len() && self.purge_tasks@[i].task_id == task_id
                    && t@ == self.purge_tasks@[i]@,
                Err(e) => refused(r, ErrorKind::NotFound, "Task not found"@)
                    && forall|i: int| 0 <= i < self.purge_tasks@.len() ==> self.purge_tasks@[i].task_id != task_id,
            },
    {
        match self.purge_pos(task_id) {
            Some(i) => Ok(self.purge_tasks[i].duplicate()),
            None => refuse(ErrorKind::NotFound, "Task not found"),
        }
    }

    /// The purge tasks the query selects, newest first (equal creation times
    /// in the order stored), cut to the page it asks for (20 by default, at
    /// most 100). An unknown status is refused first, then an unknown type.
    pub fn list_purge_tasks(&self, query: &PurgeTaskQuery) -> (r: Result<PagedResult<PurgeTask>, ApiError>)
        requires
            self.wf(),
            !bad_status(opt_view(query.status)) && !bad_type(opt_view(query.purge_type))
                ==> page_in_range(query_page(query.page), query_page_size(query.page_size, 20, 100)),
        ensures
            if bad_status(opt_view(query.status)) {
                refused(r, ErrorKind::BadRequest, "Invalid status"@)
            } else if bad_type(opt_view(query.purge_type)) {
                refused(r, ErrorKind::BadRequest, "Invalid purge type"@)
            } else {
                r matches Ok(p) && {
                    let f = self.purge_tasks@.filter(
                        |t: PurgeTask| purge_selected(t, status_filter(opt_view(query.status)), type_filter(opt_view(query.purge_type))),
                    );
                    &&& p.total == f.len()
                    &&& p.page == query_page(query.page)
                    &&& p.page_size == query_page_size(query.page_size, 20, 100)
                    &&& exists|order: Seq<usize>| is_desc_order(order, purge_times(f))
                        && purge_views(p.items@) == page_window(purge_views(arrange(f, order)), p.page, p.page_size)
                }
            },
    {
        let page = match query.page { Some(p) => p, None => 1 };
        let page_size = page_size_of(query.page_size, 20, 100);
        let status = match &query.status {
            Some(s) => match parse_task_status(s.as_str()) {
                Some(st) => Some(st),
                None => return refuse(ErrorKind::BadRequest, "Invalid status"),
            },
            None => None,
        };
        let ptype = match &query.purge_type {
            Some(s) => match parse_purge_type(s.as_str()) {
                Some(t) => Some(t),
                None => return refuse(ErrorKind::BadRequest, "Invalid purge type"),
            },
            None => None,
        };
        assert(status == status_filter(opt_view(query.status)));
        assert(ptype == type_filter(opt_view(query.purge_type)));
        let ghost pred = |t: PurgeTask| purge_selected(t, status, ptype);
        let mut f: Vec<PurgeTask> = Vec::new();
        let n = self.purge_tasks.len();
        let mut i: usize = 0;
        while i < n
            invariant
                n == self.purge_tasks@.len(),
                0 <= i <= n,
                pred == (|t: PurgeTask| purge_selected(t, status, ptype)),
                purge_views(f@) == purge_views(self.purge_tasks@.take(i as int).filter(pred)),
                f@.len() == self.purge_tasks@.take(i as int).filter(pred).len(),
            decreases n - i,
        {
            proof { lemma_filter_map_step(self.purge_tasks@, i as int, pred, |t: PurgeTask| t@); }
            let t = &self.purge_tasks[i];
            let ok_status = match status { Some(st) => t.status == st, None => true };
            let ok_type = match ptype { Some(pt) => t.purge_type == pt, None => true };
            if ok_status && ok_type {
                let ghost before = f@;
                f.push(t.duplicate());
                assert(purge_views(f@) =~= purge_views(before).push(t@));
            }
            i += 1;
        }
        assert(self.purge_tasks@.take(n as int) =~= self.purge_tasks@);
        let ghost fs = self.purge_tasks@.filter(pred);
        assert(purge_views(f@) == purge_views(fs));
        let mut keys: Vec<i128> = Vec::new();
        let mut k: usize = 0;
        while k < f.len()
            invariant
                0 <= k <= f@.len(),
                f@.len() == fs.len(),
                purge_views(f@) == purge_views(fs),
                keys@ == purge_times(fs).take(k as int),
            decreases f@.len() - k,
        {
            assert(purge_views(f@)[k as int] == purge_views(fs)[k as int]);
            keys.push(f[k].created_at);
            assert(keys@ =~= purge_times(fs).take(k + 1));
            k += 1;
        }
        assert(keys@ =~= purge_times(fs));
        let order = desc_order(&keys);
        let (lo, hi) = page_bounds(f.len(), page, page_size);
        let mut items: Vec<PurgeTask> = Vec::new();
        let mut j: usize = lo;
        while j < hi
            invariant
                lo <= j <= hi <= f@.len(),
                is_desc_order(order@, purge_times(fs)),
                f@.len() == fs.len(),
                purge_views(f@) == purge_views(fs),
                purge_views(items@) == purge_views(arrange(fs, order@)).subrange(lo as int, j as int),
            decreases hi - j,
        {
            let pos = order[j];
            let ghost before = items@;
            assert(purge_views(f@)[pos as int] == purge_views(fs)[pos as int]);
            items.push(f[pos].duplicate());
            assert(purge_views(items@) =~= purge_views(before).push(fs[pos as int]@));
            assert(purge_views(items@) =~= purge_views(arrange(fs, order@)).subrange(lo as int, j + 1));
            j += 1;
        }
        let total = f.len() as u64;
        Ok(PagedResult { items, total, page, page_size })
    }

    /// Removes the publications whose delayed removal is due now (see
    /// `run_delayed_cleanup_at`); returns the removals taken from the queue.
    pub fn run_delayed_cleanup(&mut self) -> (removed: Vec<(u128, u128, i128)>)
        requires
            old(self).wf(),
        ensures
            final(self).wf(),
            exists|now: int| #[trigger] cleanup_outcome(*old(self), *final(self), now, removed@),
    {
        let now = now_nanos();
        self.run_delayed_cleanup_at(now)
    }
}

/// `id` occurs in `ids`.
pub fn contains_id(ids: &Vec<u128>, id: u128) -> (r: bool)
    ensures
        r == ids@.contains(id),
{
    let mut i: usize = 0;
    while i < ids.len()
        invariant
            0 <= i <= ids@.len(),
            forall|j: int| 0 <= j < i ==> ids@[j] != id,
        decreases ids@.len() - i,
    {
        if ids[i] == id {
            assert(ids@[i as int] == id);
            return true;
        }
        i += 1;
    }
    false
}

/// Scheduling keeps what was queued and queues every item at `at`.
proof fn lemma_scheduled_contains(q: Map<(u128, u128, i128), i128>, items: Seq<(u128, u128)>, at: i128, k: int)
    requires
        0 <= k < items.len(),
    ensures
        scheduled(q, items, at).contains_key((items[k].0, items[k].1, at)),
    decreases items.len(),
{
    if k < items.len() - 1 {
        lemma_scheduled_contains(q, items.drop_last(), at, k);
        assert(items.drop_last()[k] == items[k]);
    }
}

/// A purge task read back after it was created is the task the request
/// described (see `created_purge`): every stored task with its identifier is
/// that task, and there is one.
pub proof fn created_purge_reads_back(
    old: AppState,
    new: AppState,
    req: CreatePurgeRequest,
    task_id: u128,
    log_id: u128,
    now: i128,
    r: Result<u128, ApiError>,
)
    requires
        old.wf(),
        new.wf(),
        create_purge_outcome(old, new, req, task_id, log_id, now, r),
        r is Ok,
    ensures
        exists|i: int| 0 <= i < new.purge_tasks@.len() && new.purge_tasks@[i].task_id == task_id,
        forall|i: int| 0 <= i < new.purge_tasks@.len() && #[trigger] new.purge_tasks@[i].task_id == task_id
            ==> new.purge_tasks@[i]@ == created_purge(old, req, task_id, now),
{
    let t = purge_views(new.purge_tasks@);
    let tk = purge_ids(new.purge_tasks@);
    lemma_upserted_found(
        purge_views(old.purge_tasks@),
        purge_ids(old.purge_tasks@),
        task_id,
        created_purge(old, req, task_id, now),
        t,
        tk,
        |v: PurgeTaskView| v.task_id,
    );
    let q = choose|q: int| 0 <= q < t.len() && tk[q] == task_id;
    assert(new.purge_tasks@[q].task_id == task_id);
    assert forall|i: int| 0 <= i < new.purge_tasks@.len() && #[trigger] new.purge_tasks@[i].task_id == task_id
        implies new.purge_tasks@[i]@ == created_purge(old, req, task_id, now) by {
        assert(tk[i] == task_id);
    }
}

/// Every entry of a filtered and mapped sequence has property `q` when every
/// kept element maps to one that has it.
proof fn lemma_mapped_filter_all<A, B>(s: Seq<A>, p: spec_fn(A) -> bool, f: spec_fn(A) -> B, q: spec_fn(B) -> bool)
    requires
        forall|a: A| #[trigger] p(a) ==> q(f(a)),
    ensures
        forall|i: int| 0 <= i < s.filter(p).map_values(f).len() ==> q(#[trigger] s.filter(p).map_values(f)[i]),
{
    broadcast use vstd::seq_lib::group_filter_ensures;
    assert forall|i: int| 0 <= i < s.filter(p).map_values(f).len() implies q(#[trigger] s.filter(p).map_values(f)[i]) by {
        assert(p(s.filter(p)[i]));
    }
}

/// The preview `x` is of a stored resource, of one of the types `mimes` when
/// any are listed.
spec fn listed_preview(st: AppState, x: PurgeInfoView, mimes: Seq<Seq<char>>) -> bool {
    exists|j: int| 0 <= j < st.resources@.len() && #[trigger] st.resources@[j].id == x.resource_id
        && (mimes.len() > 0 ==> exists|k: int| 0 <= k < mimes.len() && has_prefix(st.resources@[j].mime_type@, #[trigger] mimes[k]))
}

proof fn lemma_preview_listed(st: AppState, rid: u128, nid: u128, last: Option<i128>, mimes: Seq<Seq<char>>)
    requires
        stored_and_listed(st, rid, mimes),
    ensures
        listed_preview(st, preview(st, rid, nid, last), mimes),
{
    let c = choose|i: int| 0 <= i < st.resources@.len() && st.resources@[i].id == rid;
    assert(st.resources@[c].id == preview(st, rid, nid, last).resource_id);
}

proof fn lemma_previews_on_nodes_listed(st: AppState, nids: Seq<u128>, mimes: Seq<Seq<char>>)
    ensures
        forall|i: int| 0 <= i < previews_on_nodes(st, nids, mimes).len()
            ==> listed_preview(st, #[trigger] previews_on_nodes(st, nids, mimes)[i], mimes),
    decreases nids.len(),
{
    if nids.len() > 0 {
        let nid = nids.last();
        lemma_previews_on_nodes_listed(st, nids.drop_last(), mimes);
        let p = |p: ResourcePublish| p.node_id == nid && stored_and_listed(st, p.resource_id, mimes);
        let f = |p: ResourcePublish| preview(st, p.resource_id, nid, last_access(st.resource_stats@, p.resource_id, p.node_id));
        let q = |x: PurgeInfoView| listed_preview(st, x, mimes);
        assert forall|a: ResourcePublish| #[trigger] p(a) implies q(f(a)) by {
            lemma_preview_listed(st, a.resource_id, nid, last_access(st.resource_stats@, a.resource_id, a.node_id), mimes);
        }
        lemma_mapped_filter_all(st.resource_publishes@, p, f, q);
        let a = previews_on_nodes(st, nids.drop_last(), mimes);
        let b = previews_on_node(st, nid, mimes);
        assert forall|i: int| 0 <= i < previews_on_nodes(st, nids, mimes).len()
            implies listed_preview(st, #[trigger] previews_on_nodes(st, nids, mimes)[i], mimes) by {
            if i >= a.len() {
                assert(previews_on_nodes(st, nids, mimes)[i] == b[i - a.len()]);
                assert(q(b[i - a.len()]));
            } else {
                assert(previews_on_nodes(st, nids, mimes)[i] == a[i]);
            }
        }
    }
}

proof fn lemma_previews_of_resources_listed(st: AppState, rids: Seq<u128>, mimes: Seq<Seq<char>>)
    ensures
        forall|i: int| 0 <= i < previews_of_resources(st, rids, mimes).len()
            ==> listed_preview(st, #[trigger] previews_of_resources(st, rids, mimes)[i], mimes),
    decreases rids.len(),
{
    if rids.len() > 0 {
        let rid = rids.last();
        lemma_previews_of_resources_listed(st, rids.drop_last(), mimes);
        let a = previews_of_resources(st, rids.drop_last(), mimes);
        let b = previews_of_resource(st, rid, mimes);
        let q = |x: PurgeInfoView| listed_preview(st, x, mimes);
        if stored_and_listed(st, rid, mimes) {
            let p = |p: ResourcePublish| p.resource_id == rid;
            let f = |p: ResourcePublish| preview(st, rid, p.node_id, last_access(st.resource_stats@, rid, p.node_id));
            assert forall|x: ResourcePublish| #[trigger] p(x) implies q(f(x)) by {
                lemma_preview_listed(st, rid, x.node_id, last_access(st.resource_stats@, rid, x.node_id), mimes);
            }
            lemma_mapped_filter_all(st.resource_publishes@, p, f, q);
        }
        assert forall|i: int| 0 <= i < previews_of_resources(st, rids, mimes).len()
            implies listed_preview(st, #[trigger] previews_of_resources(st, rids, mimes)[i], mimes) by {
            if i >= a.len() {
                assert(previews_of_resources(st, rids, mimes)[i] == b[i - a.len()]);
                assert(q(b[i - a.len()]));
            } else {
                assert(previews_of_resources(st, rids, mimes)[i] == a[i]);
            }
        }
    }
}

proof fn lemma_previews_stale_listed(st: AppState, nids: Seq<u128>, mimes: Seq<Seq<char>>, cutoff: int)
    ensures
        forall|i: int| 0 <= i < previews_stale(st, nids, mimes, cutoff).len()
            ==> listed_preview(st, #[trigger] previews_stale(st, nids, mimes, cutoff)[i], mimes),
{
    let p = |e: StatEntry| stale(e, nids, cutoff) && stored_and_listed(st, e.resource_id, mimes);
    let f = |e: StatEntry| preview(st, e.resource_id, e.node_id, e.stats.last_accessed_at);
    let q = |x: PurgeInfoView| listed_preview(st, x, mimes);
    assert forall|a: StatEntry| #[trigger] p(a) implies q(f(a)) by {
        lemma_preview_listed(st, a.resource_id, a.node_id, a.stats.last_accessed_at, mimes);
    }
    lemma_mapped_filter_all(st.resource_stats@, p, f, q);
}

/// Every publication a purge preview lists is of a stored resource and, when
/// the request lists MIME prefixes, of a resource whose MIME type begins with
/// one of them; this holds for previews by node, by resource and by time.
pub proof fn previews_are_of_listed_types(st: AppState, req: CreatePurgeRequest, now: int, r: Result<DryRunResult, ApiError>)
    requires
        st.wf(),
        dry_run_outcome(st, req, now, r),
    ensures
        r matches Ok(d) ==> forall|i: int| 0 <= i < d.resources@.len()
            ==> has_resource(st.resources@, (#[trigger] d.resources@[i]).resource_id),
        r matches Ok(d) ==> forall|i: int, j: int|
            0 <= i < d.resources@.len() && 0 <= j < st.resources@.len()
            && (#[trigger] st.resources@[j]).id == (#[trigger] d.resources@[i]).resource_id
            && req.mime_types is Some && req.mime_types.unwrap()@.len() > 0
            ==> exists|k: int| 0 <= k < req.mime_types.unwrap()@.len()
                && #[trigger] has_prefix(st.resources@[j].mime_type@, req.mime_types.unwrap()@[k]@),
{
    if let Ok(d) = r {
        let t = purge_type_named(req.purge_type@).unwrap();
        let mimes = texts_or_empty(req.mime_types);
        let raw = dry_run_previews(st, t, req, now);
        let order = choose|order: Seq<usize>| is_desc_order(order, info_sizes(raw))
            && info_views(d.resources@) == arrange(raw, order);
        match t {
            PurgeType::ByNode => lemma_previews_on_nodes_listed(st, ids_or_empty(req.node_ids), mimes),
            PurgeType::ByResource => lemma_previews_of_resources_listed(st, ids_or_empty(req.resource_ids), mimes),
            PurgeType::ByTime => lemma_previews_stale_listed(st, ids_or_empty(req.node_ids), mimes,
                days_before(now, stale_days(req.days_not_accessed))),
        }
        assert(info_sizes(raw).len() == raw.len());
        assert(info_views(d.resources@).len() == d.resources@.len());
        assert forall|i: int| 0 <= i < d.resources@.len() implies
            listed_preview(st, (#[trigger] d.resources@[i])@, mimes) by {
            assert(info_views(d.resources@)[i] == d.resources@[i]@);
            assert(d.resources@[i]@ == raw[order[i] as int]);
        }
        assert forall|i: int| 0 <= i < d.resources@.len()
            implies has_resource(st.resources@, (#[trigger] d.resources@[i]).resource_id) by {
            assert(listed_preview(st, d.resources@[i]@, mimes));
        }
        assert forall|i: int, j: int|
            0 <= i < d.resources@.len() && 0 <= j < st.resources@.len()
            && (#[trigger] st.resources@[j]).id == (#[trigger] d.resources@[i]).resource_id
            && req.mime_types is Some && req.mime_types.unwrap()@.len() > 0
            implies exists|k: int| 0 <= k < req.mime_types.unwrap()@.len()
                && #[trigger] has_prefix(st.resources@[j].mime_type@, req.mime_types.unwrap()@[k]@) by {
            let ms = req.mime_types.unwrap();
            assert(listed_preview(st, d.resources@[i]@, mimes));
            let j2 = choose|j2: int| 0 <= j2 < st.resources@.len() && #[trigger] st.resources@[j2].id == d.resources@[i].resource_id
                && (mimes.len() > 0 ==> exists|k: int| 0 <= k < mimes.len() && has_prefix(st.resources@[j2].mime_type@, #[trigger] mimes[k]));
            if j2 != j {
                if j2 < j {
                    assert(resource_ids(st.resources@)[j2] != resource_ids(st.resources@)[j]);
                } else {
                    assert(resource_ids(st.resources@)[j] != resource_ids(st.resources@)[j2]);
                }
            }
            assert(mimes.len() == ms@.len());
            let k = choose|k: int| 0 <= k < mimes.len() && has_prefix(st.resources@[j].mime_type@, #[trigger] mimes[k]);
            assert(mimes[k] == ms@[k]@);
            assert(has_prefix(st.resources@[j].mime_type@, ms@[k]@));
        }
    }
}

/// Once a purge task has run and the cleanup runs when its removals are due
/// (at least five minutes later), none of the (resource, node) pairs the
/// task took is published any more.
pub proof fn purge_then_cleanup_unpublishes(
    s0: AppState,
    s1: AppState,
    s2: AppState,
    task_id: u128,
    now: i128,
    later: int,
    removed: Seq<(u128, u128, i128)>,
    i: int,
)
    requires
        0 <= i < s0.purge_tasks@.len(),
        s0.purge_tasks@[i].task_id == task_id,
        distinct(purge_ids(s0.purge_tasks@)),
        representable(now + PURGE_DELAY_MINUTES * MINUTE_NANOS),
        purge_run_outcome(s0, s1, task_id, now),
        cleanup_outcome(s1, s2, later, removed),
        later >= now + PURGE_DELAY_MINUTES * MINUTE_NANOS,
    ensures
        forall|k: int| 0 <= k < s2.resource_publishes@.len() ==>
            !purge_items(s0, s0.purge_tasks@[i]@, now as int).contains(
                ((#[trigger] s2.resource_publishes@[k]).resource_id, s2.resource_publishes@[k].node_id),
            ),
{
    broadcast use vstd::seq_lib::group_filter_ensures;
    let j = choose|j: int| 0 <= j < s0.purge_tasks@.len() && s0.purge_tasks@[j].task_id == task_id;
    if j != i {
        assert(purge_ids(s0.purge_tasks@)[j] == purge_ids(s0.purge_tasks@)[i]);
    }
    let items = purge_items(s0, s0.purge_tasks@[i]@, now as int);
    let at = (now + PURGE_DELAY_MINUTES * MINUTE_NANOS) as i128;
    let q0 = delay_entries(s1.delayed_purge_queue);
    assert forall|k: int| 0 <= k < s2.resource_publishes@.len() implies
        !items.contains(((#[trigger] s2.resource_publishes@[k]).resource_id, s2.resource_publishes@[k].node_id)) by {
        let p = s2.resource_publishes@[k];
        assert(!due_pair(q0, later, p.resource_id, p.node_id));
        if items.contains((p.resource_id, p.node_id)) {
            let m = choose|m: int| 0 <= m < items.len() && items[m] == (p.resource_id, p.node_id);
            lemma_scheduled_contains(delay_entries(s0.delayed_purge_queue), items, at, m);
            assert(q0.contains_key((p.resource_id, p.node_id, at)));
        }
    }
}

/// A key that scheduling `items` adds to the queue `q` is one of `items`.
proof fn lemma_scheduled_new_key(q: Map<(u128, u128, i128), i128>, items: Seq<(u128, u128)>, at: i128, key: (u128, u128, i128))
    requires
        scheduled(q, items, at).contains_key(key),
        !q.contains_key(key),
    ensures
        exists|m: int| 0 <= m < items.len() && #[trigger] items[m] == (key.0, key.1),
    decreases items.len(),
{
    if items.len() > 0 {
        let last = items.last();
        if key == (last.0, last.1, at) {
            assert(items[items.len() - 1] == (key.0, key.1));
        } else {
            lemma_scheduled_new_key(q, items.drop_last(), at, key);
            let m = choose|m: int| 0 <= m < items.drop_last().len() && #[trigger] items.drop_last()[m] == (key.0, key.1);
            assert(items[m] == (key.0, key.1));
        }
    }
}

proof fn lemma_items_on_nodes_allowed(st: AppState, nids: Seq<u128>, mimes: Seq<Seq<char>>)
    ensures
        forall|m: int| 0 <= m < purge_items_on_nodes(st, nids, mimes).len()
            ==> mime_allows(st.resources@, (#[trigger] purge_items_on_nodes(st, nids, mimes)[m]).0, mimes),
    decreases nids.len(),
{
    if nids.len() > 0 {
        let nid = nids.last();
        lemma_items_on_nodes_allowed(st, nids.drop_last(), mimes);
        let p = |p: ResourcePublish| p.node_id == nid && mime_allows(st.resources@, p.resource_id, mimes);
        let f = |p: ResourcePublish| (p.resource_id, p.node_id);
        let q = |x: (u128, u128)| mime_allows(st.resources@, x.0, mimes);
        lemma_mapped_filter_all(st.resource_publishes@, p, f, q);
        let a = purge_items_on_nodes(st, nids.drop_last(), mimes);
        let b = purge_items_on_node(st, nid, mimes);
        assert forall|m: int| 0 <= m < purge_items_on_nodes(st, nids, mimes).len()
            implies mime_allows(st.resources@, (#[trigger] purge_items_on_nodes(st, nids, mimes)[m]).0, mimes) by {
            if m >= a.len() {
                assert(purge_items_on_nodes(st, nids, mimes)[m] == b[m - a.len()]);
                assert(q(b[m - a.len()]));
            } else {
                assert(purge_items_on_nodes(st, nids, mimes)[m] == a[m]);
            }
        }
    }
}

proof fn lemma_items_of_resources_allowed(st: AppState, rids: Seq<u128>, mimes: Seq<Seq<char>>)
    ensures
        forall|m: int| 0 <= m < purge_items_of_resources(st, rids, mimes).len()
            ==> mime_allows(st.resources@, (#[trigger] purge_items_of_resources(st, rids, mimes)[m]).0, mimes),
    decreases rids.len(),
{
    if rids.len() > 0 {
        let rid = rids.last();
        lemma_items_of_resources_allowed(st, rids.drop_last(), mimes);
        let p = |p: ResourcePublish| p.resource_id == rid && mime_allows(st.resources@, rid, mimes);
        let f = |p: ResourcePublish| (p.resource_id, p.node_id);
        let q = |x: (u128, u128)| mime_allows(st.resources@, x.0, mimes);
        lemma_mapped_filter_all(st.resource_publishes@, p, f, q);
        let a = purge_items_of_resources(st, rids.drop_last(), mimes);
        let b = purge_items_of_resource(st, rid, mimes);
        assert forall|m: int| 0 <= m < purge_items_of_resources(st, rids, mimes).len()
            implies mime_allows(st.resources@, (#[trigger] purge_items_of_resources(st, rids, mimes)[m]).0, mimes) by {
            if m >= a.len() {
                assert(purge_items_of_resources(st, rids, mimes)[m] == b[m - a.len()]);
                assert(q(b[m - a.len()]));
            } else {
                assert(purge_items_of_resources(st, rids, mimes)[m] == a[m]);
            }
        }
    }
}

proof fn lemma_items_stale_allowed(st: AppState, nids: Seq<u128>, mimes: Seq<Seq<char>>, cutoff: int)
    ensures
        forall|m: int| 0 <= m < purge_items_stale(st, nids, mimes, cutoff).len()
            ==> mime_allows(st.resources@, (#[trigger] purge_items_stale(st, nids, mimes, cutoff)[m]).0, mimes),
{
    let p = |e: StatEntry| stale(e, nids, cutoff) && mime_allows(st.resources@, e.resource_id, mimes);
    let f = |e: StatEntry| (e.resource_id, e.node_id);
    let q = |x: (u128, u128)| mime_allows(st.resources@, x.0, mimes);
    lemma_mapped_filter_all(st.resource_stats@, p, f, q);
}

/// A run of a purge task schedules the removal of a publication only where
/// the resource is not stored or, when the task lists MIME prefixes, its MIME
/// type begins with one of them; by node, by resource and by time alike.
pub proof fn purge_schedules_only_listed_types(old: AppState, new: AppState, task_id: u128, now: i128, i: int)
    requires
        old.wf(),
        0 <= i < old.purge_tasks@.len(),
        old.purge_tasks@[i].task_id == task_id,
        purge_run_outcome(old, new, task_id, now),
    ensures
        forall|key: (u128, u128, i128), j: int|
            #[trigger] delay_entries(new.delayed_purge_queue).contains_key(key)
            && !delay_entries(old.delayed_purge_queue).contains_key(key)
            && 0 <= j < old.resources@.len() && #[trigger] old.resources@[j].id == key.0
            && old.purge_tasks@[i].mime_types@.len() > 0
            ==> exists|m: int| 0 <= m < old.purge_tasks@[i].mime_types@.len()
                && #[trigger] has_prefix(old.resources@[j].mime_type@, old.purge_tasks@[i].mime_types@[m]@),
{
    let c = choose|c: int| 0 <= c < old.purge_tasks@.len() && old.purge_tasks@[c].task_id == task_id;
    if c != i {
        if c < i {
            assert(purge_ids(old.purge_tasks@)[c] != purge_ids(old.purge_tasks@)[i]);
        } else {
            assert(purge_ids(old.purge_tasks@)[i] != purge_ids(old.purge_tasks@)[c]);
        }
    }
    let t = old.purge_tasks@[i]@;
    let mimes = t.mime_types;
    let items = purge_items(old, t, now as int);
    let at = (now + PURGE_DELAY_MINUTES * MINUTE_NANOS) as i128;
    match t.purge_type {
        PurgeType::ByNode => lemma_items_on_nodes_allowed(old, t.node_ids, mimes),
        PurgeType::ByResource => lemma_items_of_resources_allowed(old, t.resource_ids, mimes),
        PurgeType::ByTime => lemma_items_stale_allowed(old, t.node_ids, mimes,
            days_before(now as int, stale_days(t.days_not_accessed))),
    }
    assert forall|key: (u128, u128, i128), j: int|
        #[trigger] delay_entries(new.delayed_purge_queue).contains_key(key)
        && !delay_entries(old.delayed_purge_queue).contains_key(key)
        && 0 <= j < old.resources@.len() && #[trigger] old.resources@[j].id == key.0
        && old.purge_tasks@[i].mime_types@.len() > 0
        implies exists|m: int| 0 <= m < old.purge_tasks@[i].mime_types@.len()
            && #[trigger] has_prefix(old.resources@[j].mime_type@, old.purge_tasks@[i].mime_types@[m]@) by {
        lemma_scheduled_new_key(delay_entries(old.delayed_purge_queue), items, at, key);
        let m0 = choose|m: int| 0 <= m < items.len() && #[trigger] items[m] == (key.0, key.1);
        assert(mime_allows(old.resources@, items[m0].0, mimes));
        assert(has_resource(old.resources@, key.0));
        let j2 = choose|j2: int| 0 <= j2 < old.resources@.len() && old.resources@[j2].id == key.0;
        if j2 != j {
            if j2 < j {
                assert(resource_ids(old.resources@)[j2] != resource_ids(old.resources@)[j]);
            } else {
                assert(resource_ids(old.resources@)[j] != resource_ids(old.resources@)[j2]);
            }
        }
        assert(mimes.len() == old.purge_tasks@[i].mime_types@.len());
        let k = choose|k: int| 0 <= k < mimes.len() && has_prefix(old.resources@[j].mime_type@, #[trigger] mimes[k]);
        assert(mimes[k] == old.purge_tasks@[i].mime_types@[k]@);
        assert(has_prefix(old.resources@[j].mime_type@, old.purge_tasks@[i].mime_types@[k]@));
    }
}

} // verus!
