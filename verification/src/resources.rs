//! Resources: creating, changing and deleting them, their versions, where
//! they are published, and listing them with their statistics.
use vstd::prelude::*;
use sha2::Digest;
use crate::models::{Resource, ResourceView, ResourcePublish, PagedResult, texts, copy_texts, copy_opt_text, opt_text};
use crate::store::{
    AppState, ApiError, ErrorKind, refused, refuse, StatEntry, resource_ids, resource_views, upserted,
    has_resource, log_views, lemma_filter_map_step, lemma_distinct_filter, publish_keys, stat_keys,
    distinct, all_nodes_known, first_unknown_node, not_found_text, not_found_message,
    lemma_upserted_found, lemma_upserted_shape,
};
use crate::audit::{audit_entry, query_page, query_page_size, page_size_of, opt_view};
use crate::validation::{
    filename_ok, tags_ok, mime_ok, sanitized, is_valid_filename, is_valid_tags, is_valid_mime,
    is_valid_file_size, sanitize_path, MAX_FILE_SIZE,
};
use crate::text::{owned, concat};
use crate::ids::{uuid_text, id_text, new_id};
use crate::clock::now_nanos;
use crate::sorting::{desc_order, is_desc_order, arrange, page_window, page_in_range, page_bounds};
use crate::text::{has_sub, has_prefix, str_contains, str_starts_with, str_equal, chars_of, chars_equal, chars_start_with};

verus! {

/// A query of the resources.
pub struct ResourceQuery {
    pub page: Option<u64>,
    pub page_size: Option<u64>,
    pub business_line: Option<String>,
    pub tag: Option<String>,
    pub search: Option<String>,
    pub mime_type: Option<String>,
    pub directory: Option<String>,
}

/// A request to register a resource.
pub struct CreateResourceRequest {
    pub original_filename: String,
    pub storage_path: String,
    pub mime_type: String,
    pub size_bytes: u64,
    pub sha256: Option<String>,
    pub uploaded_by: String,
    pub business_line: String,
    pub tags: Vec<String>,
    pub version: Option<String>,
    pub version_group: Option<u128>,
}

/// A request to change a resource's tags, business line or file name.
pub struct UpdateResourceRequest {
    pub tags: Option<Vec<String>>,
    pub business_line: Option<String>,
    pub original_filename: Option<String>,
}

/// A request to publish a resource on nodes, or to withdraw it from them.
pub struct PublishRequest {
    pub node_ids: Vec<u128>,
    pub operator: String,
}

/// Why a create request is refused, if it is: the file name, then the tags,
/// then the MIME type, then the size.
pub open spec fn resource_refusal(req: CreateResourceRequest) -> Option<Seq<char>> {
    if !filename_ok(req.original_filename@) {
        Some("Invalid filename"@)
    } else if !tags_ok(req.tags@) {
        Some("Tags must be <= 20 items"@)
    } else if !mime_ok(req.mime_type@) {
        Some("MIME type not allowed"@)
    } else if req.size_bytes > MAX_FILE_SIZE {
        Some("File too large"@)
    } else {
        None
    }
}

/// The resource an accepted create request registers: its path sanitized,
/// version "1.0.0" and a new version group `group_id` unless the request
/// names them, no checksum unless it gives one.
pub open spec fn created_resource(req: CreateResourceRequest, id: u128, group_id: u128, now: i128) -> ResourceView {
    ResourceView {
        id,
        original_filename: req.original_filename@,
        storage_path: sanitized(req.storage_path@),
        mime_type: req.mime_type@,
        size_bytes: req.size_bytes,
        md5: None,
        sha256: match req.sha256 { Some(s) => s@, None => Seq::empty() },
        uploaded_at: now,
        uploaded_by: req.uploaded_by@,
        business_line: req.business_line@,
        tags: texts(req.tags@),
        version: match req.version { Some(v) => v@, None => "1.0.0"@ },
        version_group: match req.version_group { Some(g) => g, None => group_id },
    }
}

/// Nothing changed but the resources and the audit trail.
pub open spec fn same_but_resources(new: AppState, old: AppState) -> bool {
    &&& new.resource_stats == old.resource_stats
    &&& new.nodes == old.nodes
    &&& new.resource_publishes == old.resource_publishes
    &&& new.preheat_tasks == old.preheat_tasks
    &&& new.preheat_queue == old.preheat_queue
    &&& new.purge_tasks == old.purge_tasks
    &&& new.delayed_purge_queue == old.delayed_purge_queue
    &&& new.request_history == old.request_history
}

/// The effect of registering a resource (see `create_resource_at`).
pub open spec fn create_resource_outcome(
    old: AppState,
    new: AppState,
    req: CreateResourceRequest,
    id: u128,
    group_id: u128,
    log_id: u128,
    now: i128,
    r: Result<u128, ApiError>,
) -> bool {
    match resource_refusal(req) {
        Some(msg) => refused(r, ErrorKind::BadRequest, msg) && new.same(&old),
        None => {
            &&& r matches Ok(v) && v == id
            &&& resource_views(new.resources@) == upserted(
                resource_views(old.resources@),
                resource_ids(old.resources@),
                id,
                created_resource(req, id, group_id, now),
            )
            &&& log_views(new.audit_logs@) == log_views(old.audit_logs@).push(
                audit_entry(log_id, req.uploaded_by@, "create_resource"@, uuid_text(id), req.business_line@, now, "success"@),
            )
            &&& same_but_resources(new, old)
        },
    }
}

/// The position of resource `id` in `s` (meaningful when it is stored).
pub open spec fn resource_index(s: Seq<Resource>, id: u128) -> int {
    choose|i: int| 0 <= i < s.len() && s[i].id == id
}

/// The resource after the tag and business-line changes of an update request.
pub open spec fn resource_retagged(r: ResourceView, req: UpdateResourceRequest) -> ResourceView {
    ResourceView {
        tags: match req.tags { Some(t) => texts(t@), None => r.tags },
        business_line: match req.business_line { Some(b) => b@, None => r.business_line },
        ..r
    }
}

/// The resource after all the changes of an update request.
pub open spec fn resource_updated(r: ResourceView, req: UpdateResourceRequest) -> ResourceView {
    ResourceView {
        original_filename: match req.original_filename { Some(n) => n@, None => r.original_filename },
        ..resource_retagged(r, req)
    }
}

/// The effect of updating resource `id` (see `update_resource_at`).
pub open spec fn update_resource_outcome(
    old: AppState,
    new: AppState,
    id: u128,
    req: UpdateResourceRequest,
    log_id: u128,
    now: i128,
    r: Result<Resource, ApiError>,
) -> bool {
    if !has_resource(old.resources@, id) {
        refused(r, ErrorKind::NotFound, "Resource not found"@) && new.same(&old)
    } else {
        let i = resource_index(old.resources@, id);
        let r0 = old.resources@[i]@;
        if req.tags matches Some(t) && !tags_ok(t@) {
            refused(r, ErrorKind::BadRequest, "Invalid tags"@) && new.same(&old)
        } else if req.original_filename matches Some(n) && !filename_ok(n@) {
            &&& refused(r, ErrorKind::BadRequest, "Invalid filename"@)
            &&& resource_views(new.resources@) == resource_views(old.resources@).update(i, resource_retagged(r0, req))
            &&& new.audit_logs == old.audit_logs
            &&& same_but_resources(new, old)
        } else {
            &&& r matches Ok(v) && v@ == resource_updated(r0, req)
            &&& resource_views(new.resources@) == resource_views(old.resources@).update(i, resource_updated(r0, req))
            &&& log_views(new.audit_logs@) == log_views(old.audit_logs@).push(
                audit_entry(log_id, "system"@, "update_resource"@, uuid_text(id), resource_updated(r0, req).business_line, now, "success"@),
            )
            &&& same_but_resources(new, old)
        }
    }
}

/// The effect of deleting resource `id` (see `delete_resource_at`).
pub open spec fn delete_resource_outcome(old: AppState, new: AppState, id: u128, log_id: u128, now: i128, r: Result<bool, ApiError>) -> bool {
    if !has_resource(old.resources@, id) {
        refused(r, ErrorKind::NotFound, "Resource not found"@) && new.same(&old)
    } else {
        let i = resource_index(old.resources@, id);
        &&& r == Ok::<bool, ApiError>(true)
        &&& new.resources@ == old.resources@.remove(i)
        &&& new.resource_publishes@ == old.resource_publishes@.filter(|p: ResourcePublish| p.resource_id != id)
        &&& new.resource_stats@ == old.resource_stats@.filter(|e: StatEntry| e.resource_id != id)
        &&& log_views(new.audit_logs@) == log_views(old.audit_logs@).push(
            audit_entry(log_id, "system"@, "delete_resource"@, uuid_text(id), old.resources@[i].business_line@, now, "success"@),
        )
        &&& new.nodes == old.nodes
        &&& new.preheat_tasks == old.preheat_tasks
        &&& new.preheat_queue == old.preheat_queue
        &&& new.purge_tasks == old.purge_tasks
        &&& new.delayed_purge_queue == old.delayed_purge_queue
        &&& new.request_history == old.request_history
    }
}

impl AppState {
    /// The only position of resource `id`.
    pub proof fn lemma_resource_index(&self, id: u128, i: int)
        requires
            self.wf(),
            0 <= i < self.resources@.len(),
            self.resources@[i].id == id,
        ensures
            has_resource(self.resources@, id),
            resource_index(self.resources@, id) == i,
    {
        let k = choose|k: int| 0 <= k < self.resources@.len() && self.resources@[k].id == id;
        if k != i {
            assert(resource_ids(self.resources@)[k] == resource_ids(self.resources@)[i]);
        }
    }

    /// Stores resource `r`, replacing the stored resource with its identifier.
    pub fn put_resource(&mut self, r: Resource)
        requires
            old(self).wf(),
        ensures
            final(self).wf(),
            resource_views(final(self).resources@)
                == upserted(resource_views(old(self).resources@), resource_ids(old(self).resources@), r.id, r@),
            same_but_resources(*final(self), *old(self)),
            final(self).audit_logs == old(self).audit_logs,
    {
        let ghost ids = resource_ids(old(self).resources@);
        let id = r.id;
        match self.resource_pos(id) {
            Some(i) => {
                proof {
                    assert(ids[i as int] == id);
                    let k = choose|k: int| 0 <= k < ids.len() && ids[k] == id;
                    if k != i {
                        assert(ids[k] == ids[i as int]);
                        assert(false);
                    }
                }
                let ghost before = self.resources@;
                self.resources.set(i, r);
                proof {
                    assert(resource_views(self.resources@) =~= resource_views(before).update(i as int, r@));
                    assert(resource_ids(self.resources@) =~= resource_ids(before));
                }
            },
            None => {
                let ghost before = self.resources@;
                self.resources.push(r);
                proof {
                    assert(!(exists|k: int| 0 <= k < ids.len() && ids[k] == id));
                    assert(resource_views(self.resources@) =~= resource_views(before).push(r@));
                    assert(resource_ids(self.resources@) =~= resource_ids(before).push(id));
                }
            },
        }
    }

    /// Sets the resource at position `i` to `r`, which keeps its identifier.
    fn set_resource(&mut self, i: usize, r: Resource)
        requires
            old(self).wf(),
            i < old(self).resources@.len(),
            r.id == old(self).resources@[i as int].id,
        ensures
            final(self).wf(),
            resource_views(final(self).resources@) == resource_views(old(self).resources@).update(i as int, r@),
            same_but_resources(*final(self), *old(self)),
            final(self).audit_logs == old(self).audit_logs,
    {
        let ghost before = self.resources@;
        self.resources.set(i, r);
        proof {
            assert(resource_views(self.resources@) =~= resource_views(before).update(i as int, r@));
            assert(resource_ids(self.resources@) =~= resource_ids(before));
        }
    }

    /// Registers a resource with identifier `id` at `now`, in version group
    /// `group_id` unless the request names one, recording audit entry
    /// `log_id` (see `create_resource_outcome`).
    pub fn create_resource_at(
        &mut self,
        req: &CreateResourceRequest,
        id: u128,
        group_id: u128,
        log_id: u128,
        now: i128,
    ) -> (r: Result<u128, ApiError>)
        requires
            old(self).wf(),
        ensures
            final(self).wf(),
            create_resource_outcome(*old(self), *final(self), *req, id, group_id, log_id, now, r),
    {
        if !is_valid_filename(req.original_filename.as_str()) {
            return refuse(ErrorKind::BadRequest, "Invalid filename");
        }
        if !is_valid_tags(req.tags.as_slice()) {
            return refuse(ErrorKind::BadRequest, "Tags must be <= 20 items");
        }
        if !is_valid_mime(req.mime_type.as_str()) {
            return refuse(ErrorKind::BadRequest, "MIME type not allowed");
        }
        if !is_valid_file_size(req.size_bytes) {
            return refuse(ErrorKind::BadRequest, "File too large");
        }
        let version_group = match req.version_group { Some(g) => g, None => group_id };
        let version = match &req.version { Some(v) => v.clone(), None => owned("1.0.0") };
        let storage_path = sanitize_path(req.storage_path.as_str());
        let sha256 = match &req.sha256 { Some(s) => s.clone(), None => String::new() };
        let res = Resource {
            id,
            original_filename: req.original_filename.clone(),
            storage_path,
            mime_type: req.mime_type.clone(),
            size_bytes: req.size_bytes,
            md5: None,
            sha256,
            uploaded_at: now,
            uploaded_by: req.uploaded_by.clone(),
            business_line: req.business_line.clone(),
            tags: copy_texts(&req.tags),
            version,
            version_group,
        };
        assert(res@ == created_resource(*req, id, group_id, now));
        self.put_resource(res);
        let target = id_text(id);
        self.log_audit_at(req.uploaded_by.as_str(), "create_resource", target.as_str(), req.business_line.as_str(), "success", log_id, now);
        Ok(id)
    }

    /// Registers a resource now, with fresh identifiers (see `create_resource_at`).
    pub fn create_resource(&mut self, req: &CreateResourceRequest) -> (r: Result<u128, ApiError>)
        requires
            old(self).wf(),
        ensures
            final(self).wf(),
            exists|id: u128, group_id: u128, log_id: u128, now: i128|
                #[trigger] create_resource_outcome(*old(self), *final(self), *req, id, group_id, log_id, now, r),
    {
        let id = new_id();
        let group_id = new_id();
        let log_id = new_id();
        let now = now_nanos();
        self.create_resource_at(req, id, group_id, log_id, now)
    }

    /// Changes resource `id` as the request asks, recording audit entry
    /// `log_id` at `now` (see `update_resource_outcome`). Tags are checked
    /// first and the file name last, so a refused file name leaves the new
    /// tags and business line in place.
    pub fn update_resource_at(&mut self, id: u128, req: &UpdateResourceRequest, log_id: u128, now: i128) -> (r: Result<Resource, ApiError>)
        requires
            old(self).wf(),
        ensures
            final(self).wf(),
            update_resource_outcome(*old(self), *final(self), id, *req, log_id, now, r),
    {
        let i = match self.resource_pos(id) {
            Some(i) => i,
            None => return refuse(ErrorKind::NotFound, "Resource not found"),
        };
        proof { self.lemma_resource_index(id, i as int); }
        let mut res = self.resources[i].duplicate();
        if let Some(tags) = &req.tags {
            if !is_valid_tags(tags.as_slice()) {
                return refuse(ErrorKind::BadRequest, "Invalid tags");
            }
            res.tags = copy_texts(tags);
        }
        if let Some(bl) = &req.business_line {
            res.business_line = bl.clone();
        }
        if let Some(name) = &req.original_filename {
            if !is_valid_filename(name.as_str()) {
                assert(res@ == resource_retagged(old(self).resources@[i as int]@, *req));
                self.set_resource(i, res);
                return refuse(ErrorKind::BadRequest, "Invalid filename");
            }
            res.original_filename = name.clone();
        }
        assert(res@ == resource_updated(old(self).resources@[i as int]@, *req));
        let updated = res.duplicate();
        self.set_resource(i, res);
        let target = id_text(id);
        self.log_audit_at("system", "update_resource", target.as_str(), updated.business_line.as_str(), "success", log_id, now);
        Ok(updated)
    }

    /// Changes resource `id` now (see `update_resource_at`).
    pub fn update_resource(&mut self, id: u128, req: &UpdateResourceRequest) -> (r: Result<Resource, ApiError>)
        requires
            old(self).wf(),
        ensures
            final(self).wf(),
            exists|log_id: u128, now: i128| #[trigger] update_resource_outcome(*old(self), *final(self), id, *req, log_id, now, r),
    {
        let log_id = new_id();
        let now = now_nanos();
        self.update_resource_at(id, req, log_id, now)
    }

    /// The publications of other resources than `rid`.
    fn publishes_off_resource(&self, rid: u128) -> (v: Vec<ResourcePublish>)
        requires
            self.wf(),
        ensures
            v@ == self.resource_publishes@.filter(|p: ResourcePublish| p.resource_id != rid),
            distinct(publish_keys(v@)),
    {
        let ghost ps = self.resource_publishes@;
        let ghost keep = |p: ResourcePublish| p.resource_id != rid;
        let mut v: Vec<ResourcePublish> = Vec::new();
        let mut i: usize = 0;
        while i < self.resource_publishes.len()
            invariant
                ps == self.resource_publishes@,
                keep == (|p: ResourcePublish| p.resource_id != rid),
                0 <= i <= ps.len(),
                v@ == ps.take(i as int).filter(keep),
            decreases ps.len() - i,
        {
            proof { lemma_filter_map_step(ps, i as int, keep, |p: ResourcePublish| p); }
            let p = self.resource_publishes[i];
            if p.resource_id != rid {
                v.push(p);
            }
            i += 1;
        }
        assert(ps.take(ps.len() as int) =~= ps);
        proof {
            lemma_distinct_filter(ps, |p: ResourcePublish| (p.resource_id, p.node_id), keep);
            assert(publish_keys(ps) =~= ps.map_values(|p: ResourcePublish| (p.resource_id, p.node_id)));
            assert(publish_keys(v@) =~= v@.map_values(|p: ResourcePublish| (p.resource_id, p.node_id)));
        }
        v
    }

    /// The statistics of other resources than `rid`.
    fn stats_off_resource(&self, rid: u128) -> (v: Vec<StatEntry>)
        requires
            self.wf(),
        ensures
            v@ == self.resource_stats@.filter(|e: StatEntry| e.resource_id != rid),
            distinct(stat_keys(v@)),
    {
        let ghost es = self.resource_stats@;
        let ghost keep = |e: StatEntry| e.resource_id != rid;
        let mut v: Vec<StatEntry> = Vec::new();
        let mut i: usize = 0;
        while i < self.resource_stats.len()
            invariant
                es == self.resource_stats@,
                keep == (|e: StatEntry| e.resource_id != rid),
                0 <= i <= es.len(),
                v@ == es.take(i as int).filter(keep),
            decreases es.len() - i,
        {
            proof { lemma_filter_map_step(es, i as int, keep, |e: StatEntry| e); }
            let e = self.resource_stats[i];
            if e.resource_id != rid {
                v.push(e);
            }
            i += 1;
        }
        assert(es.take(es.len() as int) =~= es);
        proof {
            lemma_distinct_filter(es, |e: StatEntry| (e.resource_id, e.node_id), keep);
            assert(stat_keys(es) =~= es.map_values(|e: StatEntry| (e.resource_id, e.node_id)));
            assert(stat_keys(v@) =~= v@.map_values(|e: StatEntry| (e.resource_id, e.node_id)));
        }
        v
    }

    /// Deletes resource `id` with its publications and statistics, recording
    /// audit entry `log_id` at `now`; "Resource not found" for an unknown one.
    pub fn delete_resource_at(&mut self, id: u128, log_id: u128, now: i128) -> (r: Result<bool, ApiError>)
        requires
            old(self).wf(),
        ensures
            final(self).wf(),
            delete_resource_outcome(*old(self), *final(self), id, log_id, now, r),
    {
        let i = match self.resource_pos(id) {
            Some(i) => i,
            None => return refuse(ErrorKind::NotFound, "Resource not found"),
        };
        proof { self.lemma_resource_index(id, i as int); }
        let ghost before = self.resources@;
        let res = self.resources.remove(i);
        proof {
            assert(resource_ids(self.resources@) =~= resource_ids(before).remove(i as int));
            crate::store::lemma_distinct_remove(resource_ids(before), i as int);
        }
        let stats = self.stats_off_resource(id);
        let pubs = self.publishes_off_resource(id);
        self.resource_stats = stats;
        self.resource_publishes = pubs;
        let target = id_text(id);
        self.log_audit_at("system", "delete_resource", target.as_str(), res.business_line.as_str(), "success", log_id, now);
        Ok(true)
    }

    /// Deletes resource `id` now (see `delete_resource_at`).
    pub fn delete_resource(&mut self, id: u128) -> (r: Result<bool, ApiError>)
        requires
            old(self).wf(),
        ensures
            final(self).wf(),
            exists|log_id: u128, now: i128| #[trigger] delete_resource_outcome(*old(self), *final(self), id, log_id, now, r),
    {
        let log_id = new_id();
        let now = now_nanos();
        self.delete_resource_at(id, log_id, now)
    }
}

/// The upload times of a list of resources, as sort keys.
pub open spec fn upload_times(s: Seq<Resource>) -> Seq<i128> {
    s.map_values(|r: Resource| r.uploaded_at)
}

/// The effect of listing the versions of resource `id`: "Resource not found"
/// for an unknown one; else every stored resource of its version group,
/// newest first (equal times in the order stored).
pub open spec fn versions_outcome(st: AppState, id: u128, r: Result<Vec<Resource>, ApiError>) -> bool {
    if !has_resource(st.resources@, id) {
        refused(r, ErrorKind::NotFound, "Resource not found"@)
    } else {
        let g = st.resources@[resource_index(st.resources@, id)].version_group;
        let f = st.resources@.filter(|x: Resource| x.version_group == g);
        r matches Ok(v) && exists|order: Seq<usize>| is_desc_order(order, upload_times(f))
            && resource_views(v@) == resource_views(arrange(f, order))
    }
}

/// The identifiers joined with ", ", each as a UUID.
pub open spec fn joined_ids(ids: Seq<u128>) -> Seq<char>
    decreases ids.len(),
{
    if ids.len() == 0 {
        Seq::empty()
    } else if ids.len() == 1 {
        uuid_text(ids[0])
    } else {
        joined_ids(ids.drop_last()) + ", "@ + uuid_text(ids.last())
    }
}

/// The audit scope of a publication request: "nodes: [<id>, <id>, ...]", as
/// the debug form of the list of node identifiers reads.
pub open spec fn nodes_scope(ids: Seq<u128>) -> Seq<char> {
    "nodes: ["@ + joined_ids(ids) + "]"@
}

/// The publications after publishing resource `rid` on the nodes `nids` in
/// turn at `now`, each replacing an earlier publication of the same pair.
pub open spec fn published_all(ps: Seq<ResourcePublish>, rid: u128, nids: Seq<u128>, now: i128) -> Seq<ResourcePublish>
    decreases nids.len(),
{
    if nids.len() == 0 {
        ps
    } else {
        let prev = published_all(ps, rid, nids.drop_last(), now);
        upserted(prev, publish_keys(prev), (rid, nids.last()), ResourcePublish { resource_id: rid, node_id: nids.last(), published_at: now })
    }
}

/// The effect of publishing resource `id` (see `publish_resource_at`).
pub open spec fn publish_outcome(
    old: AppState,
    new: AppState,
    id: u128,
    req: PublishRequest,
    log_id: u128,
    now: i128,
    r: Result<bool, ApiError>,
) -> bool {
    if !has_resource(old.resources@, id) {
        refused(r, ErrorKind::NotFound, "Resource not found"@) && new.same(&old)
    } else if !all_nodes_known(old.nodes@, req.node_ids@) {
        refused(r, ErrorKind::BadRequest, not_found_text("Node "@, first_unknown_node(old.nodes@, req.node_ids@)))
            && new.same(&old)
    } else {
        &&& r == Ok::<bool, ApiError>(true)
        &&& new.resource_publishes@ == published_all(old.resource_publishes@, id, req.node_ids@, now)
        &&& log_views(new.audit_logs@) == log_views(old.audit_logs@).push(
            audit_entry(log_id, req.operator@, "publish_resource"@, uuid_text(id), nodes_scope(req.node_ids@), now, "success"@),
        )
        &&& new.resources == old.resources
        &&& new.resource_stats == old.resource_stats
        &&& new.nodes == old.nodes
        &&& new.preheat_tasks == old.preheat_tasks
        &&& new.preheat_queue == old.preheat_queue
        &&& new.purge_tasks == old.purge_tasks
        &&& new.delayed_purge_queue == old.delayed_purge_queue
        &&& new.request_history == old.request_history
    }
}

/// The effect of withdrawing resource `id` from the nodes of a request (see
/// `unpublish_resource_at`): its publications on those nodes are removed.
pub open spec fn unpublish_outcome(
    old: AppState,
    new: AppState,
    id: u128,
    req: PublishRequest,
    log_id: u128,
    now: i128,
) -> bool {
    &&& new.resource_publishes@ == old.resource_publishes@.filter(
        |p: ResourcePublish| !(p.resource_id == id && req.node_ids@.contains(p.node_id)),
    )
    &&& log_views(new.audit_logs@) == log_views(old.audit_logs@).push(
        audit_entry(log_id, req.operator@, "unpublish_resource"@, uuid_text(id), nodes_scope(req.node_ids@), now, "success"@),
    )
    &&& new.resources == old.resources
    &&& new.resource_stats == old.resource_stats
    &&& new.nodes == old.nodes
    &&& new.preheat_tasks == old.preheat_tasks
    &&& new.preheat_queue == old.preheat_queue
    &&& new.purge_tasks == old.purge_tasks
    &&& new.delayed_purge_queue == old.delayed_purge_queue
    &&& new.request_history == old.request_history
}

/// "nodes: [<id>, <id>, ...]" for the node identifiers `ids`.
pub fn nodes_scope_text(ids: &Vec<u128>) -> (s: String)
    ensures
        s@ == nodes_scope(ids@),
{
    let mut acc = owned("");
    let mut i: usize = 0;
    proof { reveal_strlit(""); }
    while i < ids.len()
        invariant
            0 <= i <= ids@.len(),
            acc@ == joined_ids(ids@.take(i as int)),
        decreases ids@.len() - i,
    {
        let t = id_text(ids[i]);
        proof {
            assert(ids@.take(i + 1).drop_last() =~= ids@.take(i as int));
            assert(ids@.take(i + 1).last() == ids@[i as int]);
        }
        if i == 0 {
            assert(ids@.take(1) =~= seq![ids@[0]]);
            acc = t;
        } else {
            let a = concat(acc.as_str(), ", ");
            acc = concat(a.as_str(), t.as_str());
        }
        i += 1;
    }
    assert(ids@.take(ids@.len() as int) =~= ids@);
    let a = concat("nodes: [", acc.as_str());
    concat(a.as_str(), "]")
}

impl AppState {
    /// The versions of resource `id` (see `versions_outcome`).
    pub fn list_versions(&self, id: u128) -> (r: Result<Vec<Resource>, ApiError>)
        requires
            self.wf(),
        ensures
            versions_outcome(*self, id, r),
    {
        let i = match self.resource_pos(id) {
            Some(i) => i,
            None => return refuse(ErrorKind::NotFound, "Resource not found"),
        };
        proof { self.lemma_resource_index(id, i as int); }
        let g = self.resources[i].version_group;
        let ghost pred = |x: Resource| x.version_group == g;
        let mut f: Vec<Resource> = Vec::new();
        let n = self.resources.len();
        let mut k: usize = 0;
        while k < n
            invariant
                n == self.resources@.len(),
                0 <= k <= n,
                pred == (|x: Resource| x.version_group == g),
                resource_views(f@) == resource_views(self.resources@.take(k as int).filter(pred)),
                upload_times(f@) == upload_times(self.resources@.take(k as int).filter(pred)),
            decreases n - k,
        {
            proof {
                lemma_filter_map_step(self.resources@, k as int, pred, |x: Resource| x@);
                lemma_filter_map_step(self.resources@, k as int, pred, |x: Resource| x.uploaded_at);
            }
            let x = &self.resources[k];
            if x.version_group == g {
                let ghost before = f@;
                f.push(x.duplicate());
                assert(resource_views(f@) =~= resource_views(before).push(x@));
                assert(upload_times(f@) =~= upload_times(before).push(x.uploaded_at));
            }
            k += 1;
        }
        assert(self.resources@.take(n as int) =~= self.resources@);
        let ghost fs = self.resources@.filter(pred);
        let mut keys: Vec<i128> = Vec::new();
        let mut j: usize = 0;
        while j < f.len()
            invariant
                0 <= j <= f@.len(),
                upload_times(f@) == upload_times(fs),
                keys@ == upload_times(fs).take(j as int),
            decreases f@.len() - j,
        {
            assert(upload_times(f@)[j as int] == f@[j as int].uploaded_at);
            keys.push(f[j].uploaded_at);
            assert(keys@ =~= upload_times(fs).take(j + 1));
            j += 1;
        }
        assert(keys@ =~= upload_times(fs));
        let order = desc_order(&keys);
        let mut items: Vec<Resource> = Vec::new();
        let mut m: usize = 0;
        while m < order.len()
            invariant
                0 <= m <= order@.len(),
                is_desc_order(order@, upload_times(fs)),
                resource_views(f@) == resource_views(fs),
                upload_times(f@) == upload_times(fs),
                resource_views(items@) == resource_views(arrange(fs, order@)).take(m as int),
            decreases order@.len() - m,
        {
            let pos = order[m];
            assert(upload_times(fs).len() == fs.len());
            assert(resource_views(f@).len() == f@.len());
            let ghost before = items@;
            assert(resource_views(f@)[pos as int] == resource_views(fs)[pos as int]);
            items.push(f[pos].duplicate());
            assert(resource_views(items@) =~= resource_views(before).push(fs[pos as int]@));
            assert(resource_views(items@) =~= resource_views(arrange(fs, order@)).take(m + 1));
            m += 1;
        }
        assert(resource_views(arrange(fs, order@)).take(order@.len() as int) =~= resource_views(arrange(fs, order@)));
        Ok(items)
    }

    /// Publishes resource `id` on the request's nodes at `now`, recording
    /// audit entry `log_id` (see `publish_outcome`).
    pub fn publish_resource_at(&mut self, id: u128, req: &PublishRequest, log_id: u128, now: i128) -> (r: Result<bool, ApiError>)
        requires
            old(self).wf(),
        ensures
            final(self).wf(),
            publish_outcome(*old(self), *final(self), id, *req, log_id, now, r),
    {
        if self.resource_pos(id).is_none() {
            return refuse(ErrorKind::NotFound, "Resource not found");
        }
        if let Some(nid) = self.find_unknown_node(&req.node_ids) {
            return Err(ApiError { kind: ErrorKind::BadRequest, message: not_found_message("Node ", nid) });
        }
        let mut i: usize = 0;
        while i < req.node_ids.len()
            invariant
                self.wf(),
                0 <= i <= req.node_ids@.len(),
                self.resource_publishes@ == published_all(old(self).resource_publishes@, id, req.node_ids@.take(i as int), now),
                self.resources == old(self).resources,
                self.resource_stats == old(self).resource_stats,
                self.nodes == old(self).nodes,
                self.preheat_tasks == old(self).preheat_tasks,
                self.preheat_queue == old(self).preheat_queue,
                self.purge_tasks == old(self).purge_tasks,
                self.delayed_purge_queue == old(self).delayed_purge_queue,
                self.audit_logs == old(self).audit_logs,
                self.request_history == old(self).request_history,
            decreases req.node_ids@.len() - i,
        {
            let nid = req.node_ids[i];
            proof {
                assert(req.node_ids@.take(i + 1).drop_last() =~= req.node_ids@.take(i as int));
                assert(req.node_ids@.take(i + 1).last() == nid);
            }
            self.put_publish(ResourcePublish { resource_id: id, node_id: nid, published_at: now });
            i += 1;
        }
        assert(req.node_ids@.take(req.node_ids@.len() as int) =~= req.node_ids@);
        let target = id_text(id);
        let scope = nodes_scope_text(&req.node_ids);
        self.log_audit_at(req.operator.as_str(), "publish_resource", target.as_str(), scope.as_str(), "success", log_id, now);
        Ok(true)
    }

    /// Publishes resource `id` now (see `publish_resource_at`).
    pub fn publish_resource(&mut self, id: u128, req: &PublishRequest) -> (r: Result<bool, ApiError>)
        requires
            old(self).wf(),
        ensures
            final(self).wf(),
            exists|log_id: u128, now: i128| #[trigger] publish_outcome(*old(self), *final(self), id, *req, log_id, now, r),
    {
        let log_id = new_id();
        let now = now_nanos();
        self.publish_resource_at(id, req, log_id, now)
    }

    /// Withdraws resource `id` from the request's nodes, recording audit entry
    /// `log_id` at `now` (see `unpublish_outcome`). It always succeeds.
    pub fn unpublish_resource_at(&mut self, id: u128, req: &PublishRequest, log_id: u128, now: i128) -> (r: bool)
        requires
            old(self).wf(),
        ensures
            final(self).wf(),
            r,
            unpublish_outcome(*old(self), *final(self), id, *req, log_id, now),
    {
        let ghost ps = self.resource_publishes@;
        let ghost keep = |p: ResourcePublish| !(p.resource_id == id && req.node_ids@.contains(p.node_id));
        let mut v: Vec<ResourcePublish> = Vec::new();
        let mut i: usize = 0;
        while i < self.resource_publishes.len()
            invariant
                ps == self.resource_publishes@,
                keep == (|p: ResourcePublish| !(p.resource_id == id && req.node_ids@.contains(p.node_id))),
                0 <= i <= ps.len(),
                v@ == ps.take(i as int).filter(keep),
            decreases ps.len() - i,
        {
            proof { lemma_filter_map_step(ps, i as int, keep, |p: ResourcePublish| p); }
            let p = self.resource_publishes[i];
            let listed = crate::purge::contains_id(&req.node_ids, p.node_id);
            if !(p.resource_id == id && listed) {
                v.push(p);
            }
            i += 1;
        }
        assert(ps.take(ps.len() as int) =~= ps);
        proof {
            lemma_distinct_filter(ps, |p: ResourcePublish| (p.resource_id, p.node_id), keep);
            assert(publish_keys(ps) =~= ps.map_values(|p: ResourcePublish| (p.resource_id, p.node_id)));
            assert(publish_keys(v@) =~= v@.map_values(|p: ResourcePublish| (p.resource_id, p.node_id)));
        }
        self.resource_publishes = v;
        let target = id_text(id);
        let scope = nodes_scope_text(&req.node_ids);
        self.log_audit_at(req.operator.as_str(), "unpublish_resource", target.as_str(), scope.as_str(), "success", log_id, now);
        true
    }

    /// Withdraws resource `id` from the request's nodes now (see `unpublish_resource_at`).
    pub fn unpublish_resource(&mut self, id: u128, req: &PublishRequest) -> (r: bool)
        requires
            old(self).wf(),
        ensures
            final(self).wf(),
            r,
            exists|log_id: u128, now: i128| #[trigger] unpublish_outcome(*old(self), *final(self), id, *req, log_id, now),
    {
        let log_id = new_id();
        let now = now_nanos();
        self.unpublish_resource_at(id, req, log_id, now)
    }
}

/// The hits (`hits`) or misses (otherwise) of resource `rid` over all nodes.
pub open spec fn stat_sum(s: Seq<StatEntry>, rid: u128, hits: bool) -> nat
    decreases s.len(),
{
    if s.len() == 0 {
        0
    } else {
        stat_sum(s.drop_last(), rid, hits) + if s.last().resource_id == rid {
            if hits { s.last().stats.hit_count as nat } else { s.last().stats.miss_count as nat }
        } else {
            0nat
        }
    }
}

/// The sum over a prefix of the statistics is at most the sum over all of them.
pub proof fn lemma_stat_sum_prefix(s: Seq<StatEntry>, rid: u128, hits: bool, i: int)
    requires
        0 <= i <= s.len(),
    ensures
        stat_sum(s.take(i), rid, hits) <= stat_sum(s, rid, hits),
    decreases s.len(),
{
    if i < s.len() {
        assert(s.drop_last().take(i) =~= s.take(i));
        lemma_stat_sum_prefix(s.drop_last(), rid, hits, i);
    } else {
        assert(s.take(i) =~= s);
    }
}

/// The latest access of resource `rid` on any node, if it was ever accessed
/// (of equal instants, the first found).
pub open spec fn latest_access(s: Seq<StatEntry>, rid: u128) -> Option<i128>
    decreases s.len(),
{
    if s.len() == 0 {
        None
    } else {
        let prev = latest_access(s.drop_last(), rid);
        let e = s.last();
        if e.resource_id == rid && e.stats.last_accessed_at is Some
            && (prev is None || e.stats.last_accessed_at.unwrap() > prev.unwrap()) {
            e.stats.last_accessed_at
        } else {
            prev
        }
    }
}

/// The nodes resource `rid` is published on, in the order of the publications.
pub open spec fn published_nodes_of(ps: Seq<ResourcePublish>, rid: u128) -> Seq<u128> {
    ps.filter(|p: ResourcePublish| p.resource_id == rid).map_values(|p: ResourcePublish| p.node_id)
}

/// The hits and misses of resource `rid` add up to a count that fits in `u64`.
pub open spec fn totals_fit(st: AppState, rid: u128) -> bool {
    stat_sum(st.resource_stats@, rid, true) + stat_sum(st.resource_stats@, rid, false) <= u64::MAX
}

/// A resource with its hits, misses and latest access over all nodes, and
/// the nodes it is published on.
pub struct ResourceWithStats {
    pub resource: Resource,
    pub hit_count: u64,
    pub miss_count: u64,
    pub last_accessed_at: Option<i128>,
    pub published_nodes: Vec<u128>,
}

/// The mathematical value of a [`ResourceWithStats`].
pub ghost struct ResourceSummaryView {
    pub resource: ResourceView,
    pub hit_count: u64,
    pub miss_count: u64,
    pub last_accessed_at: Option<i128>,
    pub published_nodes: Seq<u128>,
}

impl View for ResourceWithStats {
    type V = ResourceSummaryView;

    open spec fn view(&self) -> ResourceSummaryView {
        ResourceSummaryView {
            resource: self.resource@,
            hit_count: self.hit_count,
            miss_count: self.miss_count,
            last_accessed_at: self.last_accessed_at,
            published_nodes: self.published_nodes@,
        }
    }
}

/// The summary of resource `r` in state `st`.
pub open spec fn summary_of(st: AppState, r: Resource) -> ResourceSummaryView {
    ResourceSummaryView {
        resource: r@,
        hit_count: stat_sum(st.resource_stats@, r.id, true) as u64,
        miss_count: stat_sum(st.resource_stats@, r.id, false) as u64,
        last_accessed_at: latest_access(st.resource_stats@, r.id),
        published_nodes: published_nodes_of(st.resource_publishes@, r.id),
    }
}

/// The views of a list of summaries.
pub open spec fn summary_views(s: Seq<ResourceWithStats>) -> Seq<ResourceSummaryView> {
    s.map_values(|x: ResourceWithStats| x@)
}

/// `d` with a '/' at its end, unless it already ends with one.
pub open spec fn with_slash(d: Seq<char>) -> Seq<char> {
    if d.len() > 0 && d.last() == '/' { d } else { d.push('/') }
}

/// `d` without the '/' characters at its end.
pub open spec fn trim_slashes(d: Seq<char>) -> Seq<char>
    decreases d.len(),
{
    if d.len() > 0 && d.last() == '/' { trim_slashes(d.drop_last()) } else { d }
}

/// The resource matches the query: business line, tag, search text (in the
/// file name, the path or the identifier), MIME prefix, and directory (the
/// path lies under it or is the directory itself), each where given.
pub open spec fn resource_selected(
    r: Resource,
    bl: Option<Seq<char>>,
    tag: Option<Seq<char>>,
    search: Option<Seq<char>>,
    mime: Option<Seq<char>>,
    dir: Option<Seq<char>>,
) -> bool {
    &&& (bl matches Some(b) ==> r.business_line@ == b)
    &&& (tag matches Some(t) ==> texts(r.tags@).contains(t))
    &&& (search matches Some(q) ==> has_sub(r.original_filename@, q) || has_sub(r.storage_path@, q)
        || has_sub(uuid_text(r.id), q))
    &&& (mime matches Some(m) ==> has_prefix(r.mime_type@, m))
    &&& (dir matches Some(d) ==> has_prefix(r.storage_path@, with_slash(d))
        || r.storage_path@ == trim_slashes(with_slash(d)))
}

/// The resources a query selects, in the order stored.
pub open spec fn selected_resources(st: AppState, q: ResourceQuery) -> Seq<Resource> {
    st.resources@.filter(
        |r: Resource| resource_selected(
            r,
            opt_view(q.business_line),
            opt_view(q.tag),
            opt_view(q.search),
            opt_view(q.mime_type),
            opt_view(q.directory),
        ),
    )
}

/// The answer to a resource query: with `order` the newest-first order of the
/// selected resources, the page it asks for, each with its statistics; or
/// `None`, when the hits and misses of a resource on that page add up to
/// more than `u64` holds.
pub open spec fn listing_outcome(st: AppState, q: ResourceQuery, order: Seq<usize>, r: Option<PagedResult<ResourceWithStats>>) -> bool {
    let f = selected_resources(st, q);
    let w = page_window(arrange(f, order), query_page(q.page), query_page_size(q.page_size, 20, 100));
    &&& is_desc_order(order, upload_times(f))
    &&& match r {
        Some(p) => {
            &&& p.total == f.len()
            &&& p.page == query_page(q.page)
            &&& p.page_size == query_page_size(q.page_size, 20, 100)
            &&& summary_views(p.items@) == w.map_values(|x: Resource| summary_of(st, x))
        },
        None => exists|k: int| 0 <= k < w.len() && !totals_fit(st, #[trigger] w[k].id),
    }
}

/// `d` with a '/' at its end, unless it already ends with one.
fn with_slash_chars(d: &Vec<char>) -> (r: Vec<char>)
    ensures
        r@ == with_slash(d@),
{
    let mut r: Vec<char> = Vec::new();
    let mut i: usize = 0;
    while i < d.len()
        invariant
            0 <= i <= d@.len(),
            r@ == d@.take(i as int),
        decreases d@.len() - i,
    {
        r.push(d[i]);
        assert(r@ =~= d@.take(i + 1));
        i += 1;
    }
    assert(r@ =~= d@);
    if d.len() > 0 && d[d.len() - 1] == '/' {
        r
    } else {
        r.push('/');
        r
    }
}

/// `d` without the '/' characters at its end.
fn trim_slash_chars(d: &Vec<char>) -> (r: Vec<char>)
    ensures
        r@ == trim_slashes(d@),
{
    let mut n: usize = d.len();
    assert(d@.take(n as int) =~= d@);
    while n > 0 && d[n - 1] == '/'
        invariant
            0 <= n <= d@.len(),
            trim_slashes(d@.take(n as int)) == trim_slashes(d@),
        decreases n,
    {
        assert(d@.take(n as int).drop_last() =~= d@.take(n - 1));
        n -= 1;
    }
    let mut r: Vec<char> = Vec::new();
    let mut i: usize = 0;
    while i < n
        invariant
            0 <= i <= n <= d@.len(),
            r@ == d@.take(i as int),
        decreases n - i,
    {
        r.push(d[i]);
        assert(r@ =~= d@.take(i + 1));
        i += 1;
    }
    proof {
        let t = d@.take(n as int);
        assert(!(t.len() > 0 && t.last() == '/'));
    }
    r
}

/// `texts` holds the text `t`.
fn texts_contain(v: &Vec<String>, t: &str) -> (r: bool)
    ensures
        r == texts(v@).contains(t@),
{
    let mut i: usize = 0;
    while i < v.len()
        invariant
            0 <= i <= v@.len(),
            forall|j: int| 0 <= j < i ==> v@[j]@ != t@,
        decreases v@.len() - i,
    {
        if str_equal(v[i].as_str(), t) {
            assert(texts(v@)[i as int] == t@);
            return true;
        }
        i += 1;
    }
    proof {
        if texts(v@).contains(t@) {
            let j = choose|j: int| 0 <= j < texts(v@).len() && texts(v@)[j] == t@;
            assert(v@[j]@ == t@);
        }
    }
    false
}

impl AppState {
    /// The summary of resource `r`, or `None` when its hits and misses add up
    /// to more than `u64` holds.
    pub fn summarize(&self, r: &Resource) -> (out: Option<ResourceWithStats>)
        requires
            self.wf(),
        ensures
            match out {
                Some(v) => totals_fit(*self, r.id) && v@ == summary_of(*self, *r),
                None => !totals_fit(*self, r.id),
            },
    {
        let ghost es = self.resource_stats@;
        let rid = r.id;
        let mut hits: u64 = 0;
        let mut misses: u64 = 0;
        let mut last: Option<i128> = None;
        let mut i: usize = 0;
        while i < self.resource_stats.len()
            invariant
                es == self.resource_stats@,
                rid == r.id,
                0 <= i <= es.len(),
                hits == stat_sum(es.take(i as int), rid, true),
                misses == stat_sum(es.take(i as int), rid, false),
                last == latest_access(es.take(i as int), rid),
            decreases es.len() - i,
        {
            assert(es.take(i + 1).drop_last() =~= es.take(i as int));
            assert(es.take(i + 1).last() == es[i as int]);
            let e = self.resource_stats[i];
            if e.resource_id == rid {
                assert(stat_sum(es.take(i + 1), rid, true) == hits + e.stats.hit_count);
                assert(stat_sum(es.take(i + 1), rid, false) == misses + e.stats.miss_count);
                match hits.checked_add(e.stats.hit_count) {
                    Some(h) => hits = h,
                    None => {
                        proof {
                            lemma_stat_sum_prefix(es, rid, true, i + 1);
                            assert(stat_sum(es, rid, true) > u64::MAX);
                        }
                        return None;
                    },
                }
                match misses.checked_add(e.stats.miss_count) {
                    Some(m) => misses = m,
                    None => {
                        proof {
                            lemma_stat_sum_prefix(es, rid, false, i + 1);
                            assert(stat_sum(es, rid, false) > u64::MAX);
                        }
                        return None;
                    },
                }
                if let Some(la) = e.stats.last_accessed_at {
                    let newer = match last { None => true, Some(l) => la > l };
                    if newer {
                        last = Some(la);
                    }
                }
            }
            i += 1;
        }
        assert(es.take(es.len() as int) =~= es);
        if hits.checked_add(misses).is_none() {
            return None;
        }
        let ghost ps = self.resource_publishes@;
        let ghost p = |q: ResourcePublish| q.resource_id == rid;
        let ghost f = |q: ResourcePublish| q.node_id;
        let mut nodes: Vec<u128> = Vec::new();
        let mut k: usize = 0;
        while k < self.resource_publishes.len()
            invariant
                ps == self.resource_publishes@,
                p == (|q: ResourcePublish| q.resource_id == rid),
                f == (|q: ResourcePublish| q.node_id),
                0 <= k <= ps.len(),
                nodes@ == ps.take(k as int).filter(p).map_values(f),
            decreases ps.len() - k,
        {
            proof { lemma_filter_map_step(ps, k as int, p, f); }
            let q = self.resource_publishes[k];
            if q.resource_id == rid {
                nodes.push(q.node_id);
            }
            k += 1;
        }
        assert(ps.take(ps.len() as int) =~= ps);
        Some(ResourceWithStats {
            resource: r.duplicate(),
            hit_count: hits,
            miss_count: misses,
            last_accessed_at: last,
            published_nodes: nodes,
        })
    }

    /// Resource `id` with its statistics: "Resource not found" for an
    /// unknown one; `None` where its hits and misses add up to more than
    /// `u64` holds.
    pub fn get_resource(&self, id: u128) -> (r: Option<Result<ResourceWithStats, ApiError>>)
        requires
            self.wf(),
        ensures
            match r {
                None => has_resource(self.resources@, id)
                    && !totals_fit(*self, id),
                Some(Err(_)) => r matches Some(res) && refused(res, ErrorKind::NotFound, "Resource not found"@)
                    && !has_resource(self.resources@, id),
                Some(Ok(v)) => has_resource(self.resources@, id) && totals_fit(*self, id)
                    && v@ == summary_of(*self, self.resources@[resource_index(self.resources@, id)]),
            },
    {
        let i = match self.resource_pos(id) {
            Some(i) => i,
            None => return Some(refuse(ErrorKind::NotFound, "Resource not found")),
        };
        proof { self.lemma_resource_index(id, i as int); }
        match self.summarize(&self.resources[i]) {
            Some(v) => Some(Ok(v)),
            None => None,
        }
    }

    /// Whether resource `r` matches the query (see `resource_selected`).
    fn matches_query(&self, r: &Resource, q: &ResourceQuery) -> (ok: bool)
        ensures
            ok == resource_selected(
                *r,
                opt_view(q.business_line),
                opt_view(q.tag),
                opt_view(q.search),
                opt_view(q.mime_type),
                opt_view(q.directory),
            ),
    {
        if let Some(b) = &q.business_line {
            if !str_equal(r.business_line.as_str(), b.as_str()) {
                return false;
            }
        }
        if let Some(t) = &q.tag {
            if !texts_contain(&r.tags, t.as_str()) {
                return false;
            }
        }
        if let Some(sq) = &q.search {
            let idt = id_text(r.id);
            let found = str_contains(r.original_filename.as_str(), sq.as_str())
                || str_contains(r.storage_path.as_str(), sq.as_str())
                || str_contains(idt.as_str(), sq.as_str());
            if !found {
                return false;
            }
        }
        if let Some(m) = &q.mime_type {
            if !str_starts_with(r.mime_type.as_str(), m.as_str()) {
                return false;
            }
        }
        if let Some(d) = &q.directory {
            let dc = chars_of(d.as_str());
            let dir = with_slash_chars(&dc);
            let trimmed = trim_slash_chars(&dir);
            let path = chars_of(r.storage_path.as_str());
            if !(chars_start_with(&path, &dir) || chars_equal(&path, &trimmed)) {
                return false;
            }
        }
        true
    }

    /// The resources the query selects, newest first (equal upload times in
    /// the order stored), cut to the page it asks for (20 by default, at most
    /// 100), each with its statistics. `None` where the hits and misses of a
    /// resource on the page add up to more than `u64` holds.
    pub fn list_resources(&self, query: &ResourceQuery) -> (r: Option<PagedResult<ResourceWithStats>>)
        requires
            self.wf(),
            page_in_range(query_page(query.page), query_page_size(query.page_size, 20, 100)),
        ensures
            exists|order: Seq<usize>| #[trigger] listing_outcome(*self, *query, order, r),
    {
        let page = match query.page { Some(p) => p, None => 1 };
        let page_size = page_size_of(query.page_size, 20, 100);
        let ghost pred = |r: Resource| resource_selected(
            r,
            opt_view(query.business_line),
            opt_view(query.tag),
            opt_view(query.search),
            opt_view(query.mime_type),
            opt_view(query.directory),
        );
        let mut f: Vec<Resource> = Vec::new();
        let n = self.resources.len();
        let mut i: usize = 0;
        while i < n
            invariant
                n == self.resources@.len(),
                0 <= i <= n,
                pred == (|r: Resource| resource_selected(
                    r,
                    opt_view(query.business_line),
                    opt_view(query.tag),
                    opt_view(query.search),
                    opt_view(query.mime_type),
                    opt_view(query.directory),
                )),
                f@.len() == self.resources@.take(i as int).filter(pred).len(),
                forall|j: int| 0 <= j < f@.len() ==> #[trigger] f@[j]@ == self.resources@.take(i as int).filter(pred)[j]@
                    && f@[j].id == self.resources@.take(i as int).filter(pred)[j].id,
                upload_times(f@) == upload_times(self.resources@.take(i as int).filter(pred)),
            decreases n - i,
        {
            proof {
                lemma_filter_map_step(self.resources@, i as int, pred, |x: Resource| x.uploaded_at);
                lemma_filter_map_step(self.resources@, i as int, pred, |x: Resource| x);
            }
            let x = &self.resources[i];
            let ghost prev = self.resources@.take(i as int).filter(pred);
            let ghost next = self.resources@.take(i + 1).filter(pred);
            if self.matches_query(x, query) {
                let ghost before = f@;
                f.push(x.duplicate());
                assert(upload_times(f@) =~= upload_times(before).push(x.uploaded_at));
                assert(next == prev.push(*x));
                assert forall|j: int| 0 <= j < f@.len() implies #[trigger] f@[j]@ == next[j]@ && f@[j].id == next[j].id by {
                    if j < before.len() {
                        assert(f@[j] == before[j]);
                        assert(next[j] == prev[j]);
                    }
                }
            } else {
                assert(next == prev);
            }
            assert(forall|j: int| 0 <= j < f@.len() ==> #[trigger] f@[j]@ == next[j]@ && f@[j].id == next[j].id);
            i += 1;
            assert(self.resources@.take(i as int).filter(pred) == next);
        }
        assert(self.resources@.take(n as int) =~= self.resources@);
        let ghost fs = self.resources@.filter(pred);
        assert(fs == selected_resources(*self, *query));
        let mut keys: Vec<i128> = Vec::new();
        let mut k: usize = 0;
        while k < f.len()
            invariant
                0 <= k <= f@.len(),
                upload_times(f@) == upload_times(fs),
                keys@ == upload_times(fs).take(k as int),
            decreases f@.len() - k,
        {
            assert(upload_times(f@)[k as int] == f@[k as int].uploaded_at);
            keys.push(f[k].uploaded_at);
            assert(keys@ =~= upload_times(fs).take(k + 1));
            k += 1;
        }
        assert(keys@ =~= upload_times(fs));
        let order = desc_order(&keys);
        let (lo, hi) = page_bounds(f.len(), page, page_size);
        let ghost w = page_window(arrange(fs, order@), page, page_size);
        assert(upload_times(fs).len() == fs.len());
        assert(w =~= arrange(fs, order@).subrange(lo as int, hi as int));
        let mut items: Vec<ResourceWithStats> = Vec::new();
        let mut j: usize = lo;
        while j < hi
            invariant
                lo <= j <= hi <= f@.len(),
                f@.len() == fs.len(),
                is_desc_order(order@, upload_times(fs)),
                forall|m: int| 0 <= m < f@.len() ==> #[trigger] f@[m]@ == fs[m]@ && f@[m].id == fs[m].id,
                w == arrange(fs, order@).subrange(lo as int, hi as int),
                summary_views(items@) == w.take(j - lo).map_values(|x: Resource| summary_of(*self, x)),
                self.wf(),
                page == query_page(query.page),
                page_size == query_page_size(query.page_size, 20, 100),
                fs == selected_resources(*self, *query),
                w == page_window(arrange(fs, order@), page, page_size),
            decreases hi - j,
        {
            let pos = order[j];
            assert(w[j - lo] == fs[pos as int]);
            match self.summarize(&f[pos]) {
                Some(v) => {
                    let ghost before = items@;
                    let ghost sv = summary_of(*self, fs[pos as int]);
                    assert(summary_of(*self, f@[pos as int]) == sv);
                    assert(v@ == sv);
                    items.push(v);
                    assert(summary_views(items@) =~= summary_views(before).push(sv));
                    assert(w.take(j + 1 - lo) =~= w.take(j - lo).push(w[j - lo]));
                    assert(summary_views(items@) =~= w.take(j + 1 - lo).map_values(|x: Resource| summary_of(*self, x)));
                },
                None => {
                    assert(!totals_fit(*self, w[j - lo].id));
                    assert(listing_outcome(*self, *query, order@, None));
                    return None;
                },
            }
            j += 1;
        }
        assert(w.take(hi - lo) =~= w);
        let total = f.len() as u64;
        let out = PagedResult { items, total, page, page_size };
        assert(listing_outcome(*self, *query, order@, Some(out)));
        Some(out)
    }
}

/// The MIME type that `mime_guess` guesses from the extension of the file name `name`.
pub uninterp spec fn guessed_mime(name: Seq<char>) -> Seq<char>;

/// The lower-case hexadecimal SHA-256 digest of `data`.
pub uninterp spec fn sha256_hex(data: Seq<u8>) -> Seq<char>;

/// `mime_guess::from_path(name).first_or_octet_stream()` as text: the type
/// guessed from the extension, "application/octet-stream" when there is no
/// guess. It depends on the name alone; the text is named by `guessed_mime`.
#[verifier::external_body]
fn guess_mime(name: &str) -> (r: String)
    ensures
        r@ == guessed_mime(name@),
{
    mime_guess::from_path(name).first_or_octet_stream().to_string()
}

/// The SHA-256 digest of `data` (crate `sha2`), written in lower-case
/// hexadecimal; the text is named by `sha256_hex`.
#[verifier::external_body]
fn sha256_text(data: &[u8]) -> (r: String)
    ensures
        r@ == sha256_hex(data@),
{
    let mut hasher = sha2::Sha256::new();
    hasher.update(data);
    format!("{:x}", hasher.finalize())
}

/// A file received in an upload, checked and ready to be stored.
pub struct UploadedFile {
    pub filename: String,
    pub mime_type: String,
    pub size_bytes: u64,
    pub sha256: String,
}

/// The mathematical value of an [`UploadedFile`].
pub ghost struct UploadedFileView {
    pub filename: Seq<char>,
    pub mime_type: Seq<char>,
    pub size_bytes: u64,
    pub sha256: Seq<char>,
}

impl View for UploadedFile {
    type V = UploadedFileView;

    open spec fn view(&self) -> UploadedFileView {
        UploadedFileView {
            filename: self.filename@,
            mime_type: self.mime_type@,
            size_bytes: self.size_bytes,
            sha256: self.sha256@,
        }
    }
}

/// The name an uploaded part goes by: its own, or "unnamed".
pub open spec fn upload_name(name: Option<Seq<char>>) -> Seq<char> {
    match name { Some(n) => n, None => "unnamed"@ }
}

/// The answer to receiving a part named `name` with contents `body`: the
/// file name is checked, then the MIME type guessed from it, then the size;
/// an accepted part keeps its name, the guessed type, its size and digest.
pub open spec fn upload_checked(name: Option<Seq<char>>, body: Seq<u8>, r: Result<UploadedFile, ApiError>) -> bool {
    let n = upload_name(name);
    if !filename_ok(n) {
        refused(r, ErrorKind::BadRequest, "Invalid filename"@)
    } else if !mime_ok(guessed_mime(n)) {
        refused(r, ErrorKind::BadRequest, "MIME type not allowed: "@ + guessed_mime(n))
    } else if body.len() > MAX_FILE_SIZE {
        refused(r, ErrorKind::BadRequest, "File exceeds maximum size of 100MB"@)
    } else {
        r matches Ok(f) && f@ == UploadedFileView {
            filename: n,
            mime_type: guessed_mime(n),
            size_bytes: body.len() as u64,
            sha256: sha256_hex(body),
        }
    }
}

/// Checks an uploaded part named `name` with contents `body` (see `upload_checked`).
pub fn prepare_upload(name: Option<&str>, body: &Vec<u8>) -> (r: Result<UploadedFile, ApiError>)
    ensures
        upload_checked(match name { Some(n) => Some(n@), None => None }, body@, r),
{
    let filename = match name { Some(n) => owned(n), None => owned("unnamed") };
    if !is_valid_filename(filename.as_str()) {
        return refuse(ErrorKind::BadRequest, "Invalid filename");
    }
    let mime = guess_mime(filename.as_str());
    if !is_valid_mime(mime.as_str()) {
        return Err(ApiError { kind: ErrorKind::BadRequest, message: concat("MIME type not allowed: ", mime.as_str()) });
    }
    if body.len() as u64 > MAX_FILE_SIZE {
        return refuse(ErrorKind::BadRequest, "File exceeds maximum size of 100MB");
    }
    let digest = sha256_text(body.as_slice());
    Ok(UploadedFile { filename, mime_type: mime, size_bytes: body.len() as u64, sha256: digest })
}

/// The resource an uploaded file becomes: stored at "/<name>", by "uploader",
/// in business line "default", untagged, version "1.0.0" of group `group_id`.
pub open spec fn uploaded_resource(f: UploadedFileView, id: u128, group_id: u128, now: i128) -> ResourceView {
    ResourceView {
        id,
        original_filename: f.filename,
        storage_path: "/"@ + f.filename,
        mime_type: f.mime_type,
        size_bytes: f.size_bytes,
        md5: None,
        sha256: f.sha256,
        uploaded_at: now,
        uploaded_by: "uploader"@,
        business_line: "default"@,
        tags: Seq::empty(),
        version: "1.0.0"@,
        version_group: group_id,
    }
}

/// `vs` with `v` in place of the resource with its identifier, or added.
pub open spec fn upsert_view(vs: Seq<ResourceView>, v: ResourceView) -> Seq<ResourceView> {
    upserted(vs, vs.map_values(|x: ResourceView| x.id), v.id, v)
}

/// The resources after storing the uploaded files in turn, file `k` under the
/// identifier, version group and instant of `keys[k]`.
pub open spec fn stored_uploads(
    vs: Seq<ResourceView>,
    files: Seq<UploadedFileView>,
    keys: Seq<(u128, u128, i128)>,
) -> Seq<ResourceView>
    decreases files.len(),
{
    if files.len() == 0 || keys.len() < files.len() {
        vs
    } else {
        let k = files.len() - 1;
        upsert_view(stored_uploads(vs, files.drop_last(), keys), uploaded_resource(files.last(), keys[k].0, keys[k].1, keys[k].2))
    }
}

/// The effect of storing uploaded files (see `store_uploads_at`).
pub open spec fn uploads_outcome(
    old: AppState,
    new: AppState,
    files: Seq<UploadedFileView>,
    keys: Seq<(u128, u128, i128)>,
    logs: Seq<(u128, i128)>,
    r: Seq<u128>,
) -> bool {
    &&& r == keys.map_values(|k: (u128, u128, i128)| k.0)
    &&& resource_views(new.resources@) == stored_uploads(resource_views(old.resources@), files, keys)
    &&& log_views(new.audit_logs@) == log_views(old.audit_logs@) + Seq::new(
        files.len(),
        |k: int| audit_entry(logs[k].0, "uploader"@, "upload_resource"@, uuid_text(keys[k].0), "default"@, logs[k].1, "success"@),
    )
    &&& same_but_resources(new, old)
}

/// The views of a list of uploaded files.
pub open spec fn upload_views(s: Seq<UploadedFile>) -> Seq<UploadedFileView> {
    s.map_values(|f: UploadedFile| f@)
}

impl AppState {
    /// Stores the uploaded files in turn, file `k` under the identifier,
    /// version group and instant of `keys[k]`, then records one audit entry
    /// per file with the identifier and instant of `logs[k]`; returns the
    /// identifiers of the stored files.
    pub fn store_uploads_at(
        &mut self,
        files: &Vec<UploadedFile>,
        keys: &Vec<(u128, u128, i128)>,
        logs: &Vec<(u128, i128)>,
    ) -> (r: Vec<u128>)
        requires
            old(self).wf(),
            keys@.len() == files@.len(),
            logs@.len() == files@.len(),
        ensures
            final(self).wf(),
            uploads_outcome(*old(self), *final(self), upload_views(files@), keys@, logs@, r@),
    {
        let ghost fv = upload_views(files@);
        let mut ids: Vec<u128> = Vec::new();
        let mut i: usize = 0;
        while i < files.len()
            invariant
                self.wf(),
                fv == upload_views(files@),
                keys@.len() == files@.len(),
                0 <= i <= files@.len(),
                resource_views(self.resources@) == stored_uploads(resource_views(old(self).resources@), fv.take(i as int), keys@),
                ids@ == keys@.take(i as int).map_values(|k: (u128, u128, i128)| k.0),
                self.audit_logs == old(self).audit_logs,
                same_but_resources(*self, *old(self)),
            decreases files@.len() - i,
        {
            let f = &files[i];
            let (id, group_id, now) = keys[i];
            let res = Resource {
                id,
                original_filename: f.filename.clone(),
                storage_path: concat("/", f.filename.as_str()),
                mime_type: f.mime_type.clone(),
                size_bytes: f.size_bytes,
                md5: None,
                sha256: f.sha256.clone(),
                uploaded_at: now,
                uploaded_by: owned("uploader"),
                business_line: owned("default"),
                tags: Vec::new(),
                version: owned("1.0.0"),
                version_group: group_id,
            };
            proof {
                assert(res@.tags =~= Seq::<Seq<char>>::empty());
                assert(res@ == uploaded_resource(fv[i as int], id, group_id, now));
                assert(fv.take(i + 1).drop_last() =~= fv.take(i as int));
                assert(fv.take(i + 1).last() == fv[i as int]);
                assert(resource_ids(self.resources@) =~= resource_views(self.resources@).map_values(|x: ResourceView| x.id));
            }
            self.put_resource(res);
            ids.push(id);
            assert(ids@ =~= keys@.take(i + 1).map_values(|k: (u128, u128, i128)| k.0));
            i += 1;
        }
        assert(fv.take(files@.len() as int) =~= fv);
        assert(keys@.take(keys@.len() as int) =~= keys@);
        let ghost mid = log_views(self.audit_logs@);
        let mut j: usize = 0;
        while j < ids.len()
            invariant
                self.wf(),
                ids@ == keys@.map_values(|k: (u128, u128, i128)| k.0),
                keys@.len() == files@.len(),
                logs@.len() == files@.len(),
                0 <= j <= ids@.len(),
                mid == log_views(old(self).audit_logs@),
                log_views(self.audit_logs@) == mid + Seq::new(
                    j as nat,
                    |k: int| audit_entry(logs@[k].0, "uploader"@, "upload_resource"@, uuid_text(keys@[k].0), "default"@, logs@[k].1, "success"@),
                ),
                resource_views(self.resources@) == stored_uploads(resource_views(old(self).resources@), upload_views(files@), keys@),
                same_but_resources(*self, *old(self)),
            decreases ids@.len() - j,
        {
            let target = id_text(ids[j]);
            let (log_id, at) = logs[j];
            let ghost before = log_views(self.audit_logs@);
            self.log_audit_at("uploader", "upload_resource", target.as_str(), "default", "success", log_id, at);
            assert(log_views(self.audit_logs@) =~= mid + Seq::new(
                (j + 1) as nat,
                |k: int| audit_entry(logs@[k].0, "uploader"@, "upload_resource"@, uuid_text(keys@[k].0), "default"@, logs@[k].1, "success"@),
            ));
            j += 1;
        }
        ids
    }

    /// Stores the uploaded files now, with fresh identifiers (see `store_uploads_at`).
    pub fn store_uploads(&mut self, files: &Vec<UploadedFile>) -> (r: Vec<u128>)
        requires
            old(self).wf(),
        ensures
            final(self).wf(),
            exists|keys: Seq<(u128, u128, i128)>, logs: Seq<(u128, i128)>|
                keys.len() == files@.len() && logs.len() == files@.len()
                && #[trigger] uploads_outcome(*old(self), *final(self), upload_views(files@), keys, logs, r@),
    {
        let mut keys: Vec<(u128, u128, i128)> = Vec::new();
        let mut logs: Vec<(u128, i128)> = Vec::new();
        let mut i: usize = 0;
        while i < files.len()
            invariant
                0 <= i <= files@.len(),
                keys@.len() == i,
                logs@.len() == i,
            decreases files@.len() - i,
        {
            let id = new_id();
            let group_id = new_id();
            let now = now_nanos();
            keys.push((id, group_id, now));
            let log_id = new_id();
            let at = now_nanos();
            logs.push((log_id, at));
            i += 1;
        }
        self.store_uploads_at(files, &keys, &logs)
    }
}

/// A resource read back after it was created is the resource the request
/// described (see `created_resource`).
pub proof fn created_resource_reads_back(
    old: AppState,
    new: AppState,
    req: CreateResourceRequest,
    id: u128,
    group_id: u128,
    log_id: u128,
    now: i128,
    r: Result<u128, ApiError>,
)
    requires
        old.wf(),
        new.wf(),
        create_resource_outcome(old, new, req, id, group_id, log_id, now, r),
        r is Ok,
    ensures
        has_resource(new.resources@, id),
        new.resources@[resource_index(new.resources@, id)]@ == created_resource(req, id, group_id, now),
{
    let t = resource_views(new.resources@);
    let tk = resource_ids(new.resources@);
    lemma_upserted_found(
        resource_views(old.resources@),
        resource_ids(old.resources@),
        id,
        created_resource(req, id, group_id, now),
        t,
        tk,
        |v: ResourceView| v.id,
    );
    let q = choose|q: int| 0 <= q < t.len() && tk[q] == id;
    assert(new.resources@[q].id == id);
    let i = resource_index(new.resources@, id);
    assert(tk[i] == id);
}

/// A resource read back after an accepted update is the stored resource
/// with every change of the request applied.
pub proof fn updated_resource_reads_back(
    old: AppState,
    new: AppState,
    id: u128,
    req: UpdateResourceRequest,
    log_id: u128,
    now: i128,
    r: Result<Resource, ApiError>,
)
    requires
        old.wf(),
        new.wf(),
        update_resource_outcome(old, new, id, req, log_id, now, r),
        r is Ok,
    ensures
        has_resource(new.resources@, id),
        new.resources@[resource_index(new.resources@, id)]@
            == resource_updated(old.resources@[resource_index(old.resources@, id)]@, req),
{
    assert(has_resource(old.resources@, id));
    let i = resource_index(old.resources@, id);
    assert(0 <= i < old.resources@.len() && old.resources@[i].id == id);
    assert(resource_views(new.resources@).len() == resource_views(old.resources@).len());
    assert(resource_views(new.resources@)[i] == resource_updated(old.resources@[i]@, req));
    assert(resource_ids(new.resources@)[i] == resource_views(new.resources@)[i].id);
    assert(new.resources@[i].id == id);
    let j = resource_index(new.resources@, id);
    if j != i {
        if j < i {
            assert(resource_ids(new.resources@)[j] != resource_ids(new.resources@)[i]);
        } else {
            assert(resource_ids(new.resources@)[i] != resource_ids(new.resources@)[j]);
        }
    }
}

/// Every resource listed for a query with a directory `d` lies in it: when
/// `d` ends with '/', its path begins with `d` or is `d` without its trailing
/// slashes; otherwise its path is `d` itself or begins with `d` followed by
/// '/' (so a directory "img" lists "img/a.png" but not "images/b.png").
pub proof fn listed_resources_lie_in_directory(
    st: AppState,
    q: ResourceQuery,
    order: Seq<usize>,
    p: PagedResult<ResourceWithStats>,
)
    requires
        page_in_range(query_page(q.page), query_page_size(q.page_size, 20, 100)),
        listing_outcome(st, q, order, Some(p)),
    ensures
        q.directory matches Some(dd) ==> forall|i: int| 0 <= i < p.items@.len() ==> {
            let path = (#[trigger] p.items@[i]).resource.storage_path@;
            &&& (dd@.len() > 0 && dd@.last() == '/') ==> (has_prefix(path, dd@) || path == trim_slashes(dd@))
            &&& !(dd@.len() > 0 && dd@.last() == '/') ==> (has_prefix(path, dd@.push('/')) || path == dd@)
        },
{
    broadcast use vstd::seq_lib::group_filter_ensures;
    if let Some(dd) = q.directory {
        let d = dd@;
        let pred = |r: Resource| resource_selected(
            r,
            opt_view(q.business_line),
            opt_view(q.tag),
            opt_view(q.search),
            opt_view(q.mime_type),
            opt_view(q.directory),
        );
        let f = selected_resources(st, q);
        assert(f == st.resources@.filter(pred));
        let a = arrange(f, order);
        let page = query_page(q.page);
        let size = query_page_size(q.page_size, 20, 100);
        let w = page_window(a, page, size);
        let start = (page - 1) * size;
        let lo = if start < a.len() { start } else { a.len() as int };
        let hi = if start + size < a.len() { start + size } else { a.len() as int };
        assert(w == a.subrange(lo, hi));
        assert(0 <= lo <= hi <= a.len());
        assert(a.len() == order.len() && order.len() == f.len());
        assert forall|i: int| 0 <= i < p.items@.len() implies {
            let path = (#[trigger] p.items@[i]).resource.storage_path@;
            &&& (d.len() > 0 && d.last() == '/') ==> (has_prefix(path, d) || path == trim_slashes(d))
            &&& !(d.len() > 0 && d.last() == '/') ==> (has_prefix(path, d.push('/')) || path == d)
        } by {
            assert(summary_views(p.items@).len() == p.items@.len());
            assert(w.map_values(|x: Resource| summary_of(st, x)).len() == w.len());
            assert(0 <= i < w.len());
            assert(summary_views(p.items@)[i] == p.items@[i]@);
            assert(w.map_values(|x: Resource| summary_of(st, x))[i] == summary_of(st, w[i]));
            assert(w[i] == a[lo + i]);
            let j = order[lo + i] as int;
            assert(upload_times(f).len() == f.len());
            assert(a[lo + i] == f[j]);
            assert(pred(f[j]));
            let path = p.items@[i].resource.storage_path@;
            assert(path == f[j].storage_path@);
            if !(d.len() > 0 && d.last() == '/') {
                assert(with_slash(d) == d.push('/'));
                assert(d.push('/').drop_last() =~= d);
                assert(trim_slashes(d.push('/')) == trim_slashes(d));
                assert(trim_slashes(d) == d);
            } else {
                assert(with_slash(d) == d);
            }
        }
    }
}

/// Once a resource is deleted, it is gone, and no publication or statistics
/// entry names it any more.
pub proof fn deleted_resource_leaves_nothing(
    old: AppState,
    new: AppState,
    id: u128,
    log_id: u128,
    now: i128,
    r: Result<bool, ApiError>,
)
    requires
        old.wf(),
        delete_resource_outcome(old, new, id, log_id, now, r),
        r is Ok,
    ensures
        !has_resource(new.resources@, id),
        forall|k: int| 0 <= k < new.resource_publishes@.len() ==> (#[trigger] new.resource_publishes@[k]).resource_id != id,
        forall|k: int| 0 <= k < new.resource_stats@.len() ==> (#[trigger] new.resource_stats@[k]).resource_id != id,
{
    broadcast use vstd::seq_lib::group_filter_ensures;
    let i = resource_index(old.resources@, id);
    if has_resource(new.resources@, id) {
        let j = choose|j: int| 0 <= j < new.resources@.len() && new.resources@[j].id == id;
        let j0 = if j < i { j } else { j + 1 };
        assert(new.resources@[j] == old.resources@[j0]);
        assert(resource_ids(old.resources@)[j0] == resource_ids(old.resources@)[i]);
    }
}

/// The key `key` is among the keys of `s`.
pub open spec fn has_key(s: Seq<ResourcePublish>, key: (u128, u128)) -> bool {
    exists|k: int| 0 <= k < s.len() && (s[k].resource_id, s[k].node_id) == key
}

/// Storing a publication keeps every key there was and adds its own.
proof fn lemma_upsert_publish_keys(s: Seq<ResourcePublish>, p: ResourcePublish, key: (u128, u128))
    ensures
        has_key(s, key) ==> has_key(upserted(s, publish_keys(s), (p.resource_id, p.node_id), p), key),
        has_key(upserted(s, publish_keys(s), (p.resource_id, p.node_id), p), (p.resource_id, p.node_id)),
{
    let keys = publish_keys(s);
    let pk = (p.resource_id, p.node_id);
    let u = upserted(s, keys, pk, p);
    crate::store::lemma_upserted(s, keys, pk, p);
    let i = choose|i: int| 0 <= i < u.len() && u[i] == p;
    assert((u[i].resource_id, u[i].node_id) == pk);
    if has_key(s, key) {
        let k = choose|k: int| 0 <= k < s.len() && (s[k].resource_id, s[k].node_id) == key;
        if keys[k] == pk {
            assert(key == pk);
        } else {
            assert(u[k] == s[k]);
        }
    }
}

/// After publishing resource `rid` on the nodes `nids`, it is published on
/// every one of them, and every publication there was before is still there.
pub proof fn published_everywhere(ps: Seq<ResourcePublish>, rid: u128, nids: Seq<u128>, now: i128)
    ensures
        forall|j: int| 0 <= j < nids.len() ==> has_key(published_all(ps, rid, nids, now), (rid, #[trigger] nids[j])),
        forall|key: (u128, u128)| has_key(ps, key) ==> #[trigger] has_key(published_all(ps, rid, nids, now), key),
    decreases nids.len(),
{
    if nids.len() > 0 {
        let d = nids.drop_last();
        published_everywhere(ps, rid, d, now);
        let prev = published_all(ps, rid, d, now);
        let p = ResourcePublish { resource_id: rid, node_id: nids.last(), published_at: now };
        assert forall|j: int| 0 <= j < nids.len() implies has_key(published_all(ps, rid, nids, now), (rid, #[trigger] nids[j])) by {
            lemma_upsert_publish_keys(prev, p, (rid, nids[j]));
            if j < d.len() {
                assert(d[j] == nids[j]);
            }
        }
        assert forall|key: (u128, u128)| has_key(ps, key) implies #[trigger] has_key(published_all(ps, rid, nids, now), key) by {
            lemma_upsert_publish_keys(prev, p, key);
        }
    }
}

/// Replacing an entry that a filter drops by another one it drops leaves
/// what the filter keeps unchanged.
proof fn lemma_filter_update_dropped<A>(s: Seq<A>, i: int, v: A, keep: spec_fn(A) -> bool)
    requires
        0 <= i < s.len(),
        !keep(s[i]),
        !keep(v),
    ensures
        s.update(i, v).filter(keep) == s.filter(keep),
    decreases s.len(),
{
    let d = s.drop_last();
    assert(s =~= d.push(s.last()));
    d.lemma_filter_push(s.last(), keep);
    if i == s.len() - 1 {
        assert(s.update(i, v) =~= d.push(v));
        d.lemma_filter_push(v, keep);
    } else {
        lemma_filter_update_dropped(d, i, v, keep);
        assert(s.update(i, v) =~= d.update(i, v).push(s.last()));
        d.update(i, v).lemma_filter_push(s.last(), keep);
    }
}

/// Publishing resource `rid` on `nids` changes nothing that a filter keeps
/// when the filter drops every publication of `rid` on those nodes.
proof fn lemma_published_all_filtered(
    ps: Seq<ResourcePublish>,
    rid: u128,
    nids: Seq<u128>,
    now: i128,
    keep: spec_fn(ResourcePublish) -> bool,
)
    requires
        forall|p: ResourcePublish| p.resource_id == rid && nids.contains(p.node_id) ==> !#[trigger] keep(p),
    ensures
        published_all(ps, rid, nids, now).filter(keep) == ps.filter(keep),
    decreases nids.len(),
{
    if nids.len() > 0 {
        let d = nids.drop_last();
        assert forall|p: ResourcePublish| p.resource_id == rid && d.contains(p.node_id) implies !#[trigger] keep(p) by {
            let k = choose|k: int| 0 <= k < d.len() && d[k] == p.node_id;
            assert(nids[k] == p.node_id);
        }
        lemma_published_all_filtered(ps, rid, d, now, keep);
        let prev = published_all(ps, rid, d, now);
        let keys = publish_keys(prev);
        let key = (rid, nids.last());
        let p = ResourcePublish { resource_id: rid, node_id: nids.last(), published_at: now };
        assert(nids.contains(nids.last()));
        assert(!keep(p));
        lemma_upserted_shape(prev, keys, key, p);
        if exists|i: int| 0 <= i < keys.len() && keys[i] == key {
            let j = choose|j: int| 0 <= j < keys.len() && keys[j] == key && #[trigger] prev.update(j, p) == upserted(prev, keys, key, p);
            assert(prev[j].resource_id == rid && prev[j].node_id == nids.last());
            lemma_filter_update_dropped(prev, j, p, keep);
        } else {
            prev.lemma_filter_push(p, keep);
        }
    }
}

/// Publishing a resource on some nodes and then withdrawing it from the same
/// nodes leaves the publications as withdrawing alone would have: the
/// publications of the resource on those nodes are gone, and every other
/// publication is as it was, in the same order.
pub proof fn unpublish_undoes_publish(
    s0: AppState,
    s1: AppState,
    s2: AppState,
    id: u128,
    req: PublishRequest,
    log1: u128,
    now1: i128,
    r: Result<bool, ApiError>,
    log2: u128,
    now2: i128,
)
    requires
        s0.wf(),
        publish_outcome(s0, s1, id, req, log1, now1, r),
        r is Ok,
        unpublish_outcome(s1, s2, id, req, log2, now2),
    ensures
        s2.resource_publishes@ == s0.resource_publishes@.filter(
            |p: ResourcePublish| !(p.resource_id == id && req.node_ids@.contains(p.node_id)),
        ),
{
    let keep = |p: ResourcePublish| !(p.resource_id == id && req.node_ids@.contains(p.node_id));
    lemma_published_all_filtered(s0.resource_publishes@, id, req.node_ids@, now1, keep);
}

/// A registered resource is stored under a path that sanitizing leaves as it is.
pub proof fn created_path_is_sanitized(req: CreateResourceRequest, id: u128, group_id: u128, now: i128)
    ensures
        sanitized(created_resource(req, id, group_id, now).storage_path) == created_resource(req, id, group_id, now).storage_path,
{
    crate::validation::sanitize_idempotent(req.storage_path@);
}

} // verus!
