//! Nodes: listing, creating, updating and deleting them, and what they hold.
use vstd::prelude::*;
use crate::models::{
    Node, NodeView, NodeStatus, Region, Carrier, Resource, ResourceView, ResourceStats,
    ResourcePublish, PagedResult, region_named, carrier_named, parse_carrier, parse_node_status,
    node_status_named,
};
use crate::store::{
    AppState, ApiError, ErrorKind, refused, refuse, StatEntry, node_ids, node_views, upserted,
    has_node, has_resource, resource_with, log_views, lemma_filter_map_step, lemma_distinct_filter,
    publish_keys, stat_keys, distinct, has_stat, stat_with, stats_or_empty, lemma_upserted_found,
};
use crate::audit::{audit_entry, query_page, query_page_size, page_size_of, opt_view};
use crate::purge::publishes_on;
use crate::ids::{uuid_text, id_text, new_id};
use crate::clock::now_nanos;
use crate::sorting::{desc_order, is_desc_order, arrange, page_window, page_in_range, page_bounds};

verus! {

/// A query of the nodes.
pub struct NodeQuery {
    pub page: Option<u64>,
    pub page_size: Option<u64>,
    pub region: Option<String>,
    pub status: Option<String>,
    pub carrier: Option<String>,
}

/// A request to create a node.
pub struct CreateNodeRequest {
    pub name: String,
    pub region: String,
    pub datacenter_address: String,
    pub carrier: String,
    pub capacity_gb: u64,
    pub operator: String,
}

/// A request to change a node's description.
pub struct UpdateNodeRequest {
    pub name: Option<String>,
    pub datacenter_address: Option<String>,
    pub capacity_gb: Option<u64>,
    pub region: Option<String>,
    pub carrier: Option<String>,
}

/// A request to change a node's status.
pub struct UpdateNodeStatusRequest {
    pub status: String,
    pub operator: String,
}

/// A node with the number of resources published on it.
pub struct NodeWithStats {
    pub node: Node,
    pub resource_count: u64,
}

/// A resource published on a node, with its hits and misses there.
pub struct NodeResourceEntry {
    pub resource: Resource,
    pub hit_count: u64,
    pub miss_count: u64,
    pub last_accessed_at: Option<i128>,
}

/// The heartbeat times of a list of nodes.
pub open spec fn heartbeats(s: Seq<Node>) -> Seq<i128> {
    s.map_values(|n: Node| n.heartbeat_at)
}

/// The node matches the query's region (a known region name; an unknown one
/// selects every node) and status.
pub open spec fn node_selected(n: Node, region: Option<Seq<char>>, status: Option<NodeStatus>) -> bool {
    &&& match region {
        Some(r) => match region_named(r) { Some(g) => n.region == g, None => true },
        None => true,
    }
    &&& (status matches Some(s) ==> n.status == s)
}

/// The query names an unknown node status.
pub open spec fn bad_node_status(s: Option<Seq<char>>) -> bool {
    s matches Some(t) && node_status_named(t) is None
}

/// The node status the query names, where it names a known one.
pub open spec fn node_status_filter(s: Option<Seq<char>>) -> Option<NodeStatus> {
    match s { Some(t) => node_status_named(t), None => None }
}

/// The node a create request describes.
pub open spec fn created_node(req: CreateNodeRequest, id: u128, now: i128) -> NodeView {
    NodeView {
        id,
        name: req.name@,
        region: region_named(req.region@).unwrap(),
        datacenter_address: req.datacenter_address@,
        carrier: carrier_named(req.carrier@).unwrap(),
        capacity_gb: req.capacity_gb,
        used_gb: 0,
        status: NodeStatus::Offline,
        heartbeat_at: now,
    }
}

/// The node after the changes of an update request other than its carrier:
/// name, address and capacity where given, region where given and known.
pub open spec fn node_described(n: NodeView, req: UpdateNodeRequest) -> NodeView {
    NodeView {
        name: match req.name { Some(s) => s@, None => n.name },
        datacenter_address: match req.datacenter_address { Some(s) => s@, None => n.datacenter_address },
        capacity_gb: match req.capacity_gb { Some(c) => c, None => n.capacity_gb },
        region: match req.region {
            Some(s) => match region_named(s@) { Some(r) => r, None => n.region },
            None => n.region,
        },
        ..n
    }
}

/// The update request names an unknown carrier.
pub open spec fn bad_carrier(req: UpdateNodeRequest) -> bool {
    req.carrier matches Some(s) && carrier_named(s@) is None
}

/// The node after all the changes of an update request.
pub open spec fn node_updated(n: NodeView, req: UpdateNodeRequest) -> NodeView {
    let d = node_described(n, req);
    match req.carrier {
        Some(s) => NodeView { carrier: carrier_named(s@).unwrap(), ..d },
        None => d,
    }
}

/// The position of the node `id` (meaningful when it is stored).
pub open spec fn node_index(s: Seq<Node>, id: u128) -> int {
    choose|i: int| 0 <= i < s.len() && s[i].id == id
}

/// The effect of creating a node: refused with "Invalid region" or "Invalid
/// carrier" (in that order) and nothing changed; or the node stored under
/// `node_id`, its identifier returned, and audit entry `log_id` recorded.
pub open spec fn create_node_outcome(
    old: AppState,
    new: AppState,
    req: CreateNodeRequest,
    node_id: u128,
    log_id: u128,
    now: i128,
    r: Result<u128, ApiError>,
) -> bool {
    if region_named(req.region@) is None {
        refused(r, ErrorKind::BadRequest, "Invalid region"@) && new.same(&old)
    } else if carrier_named(req.carrier@) is None {
        refused(r, ErrorKind::BadRequest, "Invalid carrier"@) && new.same(&old)
    } else {
        &&& r matches Ok(id) && id == node_id
        &&& node_views(new.nodes@) == upserted(node_views(old.nodes@), node_ids(old.nodes@), node_id, created_node(req, node_id, now))
        &&& log_views(new.audit_logs@) == log_views(old.audit_logs@).push(
            audit_entry(log_id, req.operator@, "create_node"@, uuid_text(node_id), req.name@, now, "success"@),
        )
        &&& new.same_but_nodes_and_logs(&old)
    }
}

impl AppState {
    /// Nothing changed but the nodes and the audit trail.
    pub open spec fn same_but_nodes_and_logs(&self, other: &AppState) -> bool {
        &&& self.resources == other.resources
        &&& self.resource_stats == other.resource_stats
        &&& self.resource_publishes == other.resource_publishes
        &&& self.preheat_tasks == other.preheat_tasks
        &&& self.preheat_queue == other.preheat_queue
        &&& self.purge_tasks == other.purge_tasks
        &&& self.delayed_purge_queue == other.delayed_purge_queue
        &&& self.request_history == other.request_history
    }

    /// Stores node `n`, replacing the stored node with its identifier.
    pub fn put_node(&mut self, n: Node)
        requires
            old(self).wf(),
        ensures
            final(self).wf(),
            node_views(final(self).nodes@) == upserted(node_views(old(self).nodes@), node_ids(old(self).nodes@), n.id, n@),
            final(self).same_but_nodes_and_logs(&*old(self)),
            final(self).audit_logs == old(self).audit_logs,
    {
        let ghost ids = node_ids(old(self).nodes@);
        let id = n.id;
        match self.node_pos(id) {
            Some(i) => {
                proof {
                    assert(ids[i as int] == id);
                    let k = choose|k: int| 0 <= k < ids.len() && ids[k] == id;
                    if k != i {
                        assert(ids[k] == ids[i as int]);
                        assert(false);
                    }
                }
                let ghost before = self.nodes@;
                self.nodes.set(i, n);
                proof {
                    assert(node_views(self.nodes@) =~= node_views(before).update(i as int, n@));
                    assert(node_ids(self.nodes@) =~= node_ids(before));
                }
            },
            None => {
                let ghost before = self.nodes@;
                self.nodes.push(n);
                proof {
                    assert(!(exists|k: int| 0 <= k < ids.len() && ids[k] == id));
                    assert(node_views(self.nodes@) =~= node_views(before).push(n@));
                    assert(node_ids(self.nodes@) =~= node_ids(before).push(id));
                }
            },
        }
    }

    /// Creates a node with identifier `node_id` at `now` (see `create_node_outcome`).
    pub fn create_node_at(&mut self, req: &CreateNodeRequest, node_id: u128, log_id: u128, now: i128) -> (r: Result<u128, ApiError>)
        requires
            old(self).wf(),
        ensures
            final(self).wf(),
            create_node_outcome(*old(self), *final(self), *req, node_id, log_id, now, r),
    {
        let region = match Region::from_str(req.region.as_str()) {
            Some(r) => r,
            None => return refuse(ErrorKind::BadRequest, "Invalid region"),
        };
        let carrier = match parse_carrier(req.carrier.as_str()) {
            Some(c) => c,
            None => return refuse(ErrorKind::BadRequest, "Invalid carrier"),
        };
        let node = Node {
            id: node_id,
            name: req.name.clone(),
            region,
            datacenter_address: req.datacenter_address.clone(),
            carrier,
            capacity_gb: req.capacity_gb,
            used_gb: 0,
            status: NodeStatus::Offline,
            heartbeat_at: now,
        };
        self.put_node(node);
        let target = id_text(node_id);
        self.log_audit_at(req.operator.as_str(), "create_node", target.as_str(), req.name.as_str(), "success", log_id, now);
        Ok(node_id)
    }

    /// Creates a node now, with fresh identifiers.
    pub fn create_node(&mut self, req: &CreateNodeRequest) -> (r: Result<u128, ApiError>)
        requires
            old(self).wf(),
        ensures
            final(self).wf(),
            exists|node_id: u128, log_id: u128, now: i128|
                #[trigger] create_node_outcome(*old(self), *final(self), *req, node_id, log_id, now, r),
    {
        let node_id = new_id();
        let log_id = new_id();
        let now = now_nanos();
        self.create_node_at(req, node_id, log_id, now)
    }

    /// The node `id` with the number of resources published on it, or "Node not found".
    pub fn get_node(&self, id: u128) -> (r: Result<NodeWithStats, ApiError>)
        requires
            self.wf(),
        ensures
            match r {
                Ok(w) => has_node(self.nodes@, id) && w.node == self.nodes@[node_index(self.nodes@, id)]
                    && w.resource_count == publishes_on(self.resource_publishes@, id),
                Err(_) => refused(r, ErrorKind::NotFound, "Node not found"@) && !has_node(self.nodes@, id),
            },
    {
        match self.node_pos(id) {
            Some(i) => {
                proof {
                    let k = choose|k: int| 0 <= k < self.nodes@.len() && self.nodes@[k].id == id;
                    if k != i {
                        assert(node_ids(self.nodes@)[k] == node_ids(self.nodes@)[i as int]);
                    }
                }
                let count = self.count_publishes_on(id);
                Ok(NodeWithStats { node: self.nodes[i].duplicate(), resource_count: count as u64 })
            },
            None => refuse(ErrorKind::NotFound, "Node not found"),
        }
    }

    /// The nodes the query selects, latest heartbeat first (equal heartbeats in
    /// the order stored), cut to the page it asks for (20 by default, at most
    /// 100), each with the number of resources published on it. An unknown
    /// status is refused; an unknown region, and the carrier, select nothing out.
    pub fn list_nodes(&self, query: &NodeQuery) -> (r: Result<PagedResult<NodeWithStats>, ApiError>)
        requires
            self.wf(),
            !bad_node_status(opt_view(query.status))
                ==> page_in_range(query_page(query.page), query_page_size(query.page_size, 20, 100)),
        ensures
            if bad_node_status(opt_view(query.status)) {
                refused(r, ErrorKind::BadRequest, "Invalid status"@)
            } else {
                r matches Ok(p) && {
                    let f = self.nodes@.filter(
                        |n: Node| node_selected(n, opt_view(query.region), node_status_filter(opt_view(query.status))),
                    );
                    &&& p.total == f.len()
                    &&& p.page == query_page(query.page)
                    &&& p.page_size == query_page_size(query.page_size, 20, 100)
                    &&& exists|order: Seq<usize>| is_desc_order(order, heartbeats(f)) && {
                        let w = page_window(arrange(f, order), p.page, p.page_size);
                        &&& p.items@.len() == w.len()
                        &&& forall|j: int| 0 <= j < w.len() ==> (#[trigger] p.items@[j]).node == w[j]
                            && p.items@[j].resource_count == publishes_on(self.resource_publishes@, w[j].id)
                    }
                }
            },
    {
        let page = match query.page { Some(p) => p, None => 1 };
        let page_size = page_size_of(query.page_size, 20, 100);
        let region = match &query.region {
            Some(s) => Region::from_str(s.as_str()),
            None => None,
        };
        let status = match &query.status {
            Some(s) => match parse_node_status(s.as_str()) {
                Some(st) => Some(st),
                None => return refuse(ErrorKind::BadRequest, "Invalid status"),
            },
            None => None,
        };
        assert(status == node_status_filter(opt_view(query.status)));
        let ghost pred = |n: Node| node_selected(n, opt_view(query.region), status);
        let mut f: Vec<Node> = Vec::new();
        let n = self.nodes.len();
        let mut i: usize = 0;
        while i < n
            invariant
                n == self.nodes@.len(),
                0 <= i <= n,
                region == (match opt_view(query.region) { Some(s) => region_named(s), None => None }),
                pred == (|n: Node| node_selected(n, opt_view(query.region), status)),
                f@ == self.nodes@.take(i as int).filter(pred),
            decreases n - i,
        {
            proof { lemma_filter_map_step(self.nodes@, i as int, pred, |x: Node| x); }
            let node = &self.nodes[i];
            let ok_region = match region { Some(r) => node.region == r, None => true };
            let ok_status = match status { Some(st) => node.status == st, None => true };
            if ok_region && ok_status {
                f.push(node.duplicate());
            }
            i += 1;
        }
        assert(self.nodes@.take(n as int) =~= self.nodes@);
        let mut keys: Vec<i128> = Vec::new();
        let mut k: usize = 0;
        while k < f.len()
            invariant
                0 <= k <= f@.len(),
                keys@ == heartbeats(f@).take(k as int),
            decreases f@.len() - k,
        {
            keys.push(f[k].heartbeat_at);
            assert(keys@ =~= heartbeats(f@).take(k + 1));
            k += 1;
        }
        assert(keys@ =~= heartbeats(f@));
        let order = desc_order(&keys);
        let (lo, hi) = page_bounds(f.len(), page, page_size);
        let ghost w = arrange(f@, order@).subrange(lo as int, hi as int);
        let mut items: Vec<NodeWithStats> = Vec::new();
        let mut j: usize = lo;
        while j < hi
            invariant
                lo <= j <= hi <= f@.len(),
                is_desc_order(order@, heartbeats(f@)),
                w == arrange(f@, order@).subrange(lo as int, hi as int),
                items@.len() == j - lo,
                forall|x: int| 0 <= x < items@.len() ==> (#[trigger] items@[x]).node == w[x]
                    && items@[x].resource_count == publishes_on(self.resource_publishes@, w[x].id),
            decreases hi - j,
        {
            let pos = order[j];
            let node = f[pos].duplicate();
            let count = self.count_publishes_on(node.id);
            items.push(NodeWithStats { node, resource_count: count as u64 });
            j += 1;
        }
        let total = f.len() as u64;
        Ok(PagedResult { items, total, page, page_size })
    }
}

/// The mathematical value of a [`NodeResourceEntry`].
pub ghost struct NodeResourceView {
    pub resource: ResourceView,
    pub hit_count: u64,
    pub miss_count: u64,
    pub last_accessed_at: Option<i128>,
}

impl View for NodeResourceEntry {
    type V = NodeResourceView;

    open spec fn view(&self) -> NodeResourceView {
        NodeResourceView {
            resource: self.resource@,
            hit_count: self.hit_count,
            miss_count: self.miss_count,
            last_accessed_at: self.last_accessed_at,
        }
    }
}

/// The views of a list of node resource entries.
pub open spec fn entry_views(s: Seq<NodeResourceEntry>) -> Seq<NodeResourceView> {
    s.map_values(|e: NodeResourceEntry| e@)
}

/// The hit counts of a list of node resource entries, as sort keys.
pub open spec fn entry_hits(s: Seq<NodeResourceView>) -> Seq<i128> {
    s.map_values(|e: NodeResourceView| e.hit_count as i128)
}

/// The entry of resource `rid` on node `nid`.
pub open spec fn node_entry(st: AppState, rid: u128, nid: u128) -> NodeResourceView {
    let s = stats_or_empty(st.resource_stats@, rid, nid);
    NodeResourceView {
        resource: resource_with(st.resources@, rid)@,
        hit_count: s.hit_count,
        miss_count: s.miss_count,
        last_accessed_at: s.last_accessed_at,
    }
}

/// The entries of the stored resources published on node `nid`, in the order
/// of the publications.
pub open spec fn node_entries(st: AppState, nid: u128) -> Seq<NodeResourceView> {
    st.resource_publishes@.filter(
        |p: ResourcePublish| p.node_id == nid && has_resource(st.resources@, p.resource_id),
    ).map_values(|p: ResourcePublish| node_entry(st, p.resource_id, nid))
}

/// The effect of updating node `id` (see `update_node_at`).
pub open spec fn update_node_outcome(
    old: AppState,
    new: AppState,
    id: u128,
    req: UpdateNodeRequest,
    log_id: u128,
    now: i128,
    r: Result<Node, ApiError>,
) -> bool {
    if !has_node(old.nodes@, id) {
        refused(r, ErrorKind::NotFound, "Node not found"@) && new.same(&old)
    } else {
        let i = node_index(old.nodes@, id);
        if bad_carrier(req) {
            &&& refused(r, ErrorKind::BadRequest, "Invalid carrier"@)
            &&& node_views(new.nodes@) == node_views(old.nodes@).update(i, node_described(old.nodes@[i]@, req))
            &&& new.same_but_nodes_and_logs(&old)
            &&& new.audit_logs == old.audit_logs
        } else {
            &&& r matches Ok(n) && n@ == node_updated(old.nodes@[i]@, req)
            &&& node_views(new.nodes@) == node_views(old.nodes@).update(i, node_updated(old.nodes@[i]@, req))
            &&& log_views(new.audit_logs@) == log_views(old.audit_logs@).push(
                audit_entry(log_id, "system"@, "update_node"@, uuid_text(id), node_updated(old.nodes@[i]@, req).name, now, "success"@),
            )
            &&& new.same_but_nodes_and_logs(&old)
        }
    }
}

/// The effect of deleting node `id` (see `delete_node_at`).
pub open spec fn delete_node_outcome(old: AppState, new: AppState, id: u128, log_id: u128, now: i128, r: Result<bool, ApiError>) -> bool {
    if !has_node(old.nodes@, id) {
        refused(r, ErrorKind::NotFound, "Node not found"@) && new.same(&old)
    } else {
        let i = node_index(old.nodes@, id);
        &&& r == Ok::<bool, ApiError>(true)
        &&& new.nodes@ == old.nodes@.remove(i)
        &&& new.resource_publishes@ == old.resource_publishes@.filter(|p: ResourcePublish| p.node_id != id)
        &&& new.resource_stats@ == old.resource_stats@.filter(|e: StatEntry| e.node_id != id)
        &&& log_views(new.audit_logs@) == log_views(old.audit_logs@).push(
            audit_entry(log_id, "system"@, "delete_node"@, uuid_text(id), old.nodes@[i].name@, now, "success"@),
        )
        &&& new.resources == old.resources
        &&& new.preheat_tasks == old.preheat_tasks
        &&& new.preheat_queue == old.preheat_queue
        &&& new.purge_tasks == old.purge_tasks
        &&& new.delayed_purge_queue == old.delayed_purge_queue
        &&& new.request_history == old.request_history
    }
}

/// The effect of changing the status of node `id` (see `update_node_status_at`).
pub open spec fn node_status_outcome(
    old: AppState,
    new: AppState,
    id: u128,
    req: UpdateNodeStatusRequest,
    log_id: u128,
    now: i128,
    r: Result<bool, ApiError>,
) -> bool {
    if node_status_named(req.status@) is None {
        refused(r, ErrorKind::BadRequest, "Invalid status"@) && new.same(&old)
    } else if !has_node(old.nodes@, id) {
        refused(r, ErrorKind::NotFound, "Node not found"@) && new.same(&old)
    } else {
        let i = node_index(old.nodes@, id);
        &&& r == Ok::<bool, ApiError>(true)
        &&& node_views(new.nodes@) == node_views(old.nodes@).update(
            i,
            NodeView { status: node_status_named(req.status@).unwrap(), heartbeat_at: now, ..old.nodes@[i]@ },
        )
        &&& log_views(new.audit_logs@) == log_views(old.audit_logs@).push(
            audit_entry(log_id, req.operator@, "update_node_status"@, uuid_text(id), req.status@, now, "success"@),
        )
        &&& new.same_but_nodes_and_logs(&old)
    }
}

impl AppState {
    /// The only position of node `id`.
    proof fn lemma_node_index(&self, id: u128, i: int)
        requires
            self.wf(),
            0 <= i < self.nodes@.len(),
            self.nodes@[i].id == id,
        ensures
            has_node(self.nodes@, id),
            node_index(self.nodes@, id) == i,
    {
        let k = choose|k: int| 0 <= k < self.nodes@.len() && self.nodes@[k].id == id;
        if k != i {
            assert(node_ids(self.nodes@)[k] == node_ids(self.nodes@)[i]);
        }
    }

    /// Sets the node at position `i` to `n`, which keeps its identifier.
    fn replace_node(&mut self, i: usize, n: Node)
        requires
            old(self).wf(),
            i < old(self).nodes@.len(),
            n.id == old(self).nodes@[i as int].id,
        ensures
            final(self).wf(),
            node_views(final(self).nodes@) == node_views(old(self).nodes@).update(i as int, n@),
            final(self).same_but_nodes_and_logs(&*old(self)),
            final(self).audit_logs == old(self).audit_logs,
    {
        let ghost before = self.nodes@;
        self.nodes.set(i, n);
        proof {
            assert(node_views(self.nodes@) =~= node_views(before).update(i as int, n@));
            assert(node_ids(self.nodes@) =~= node_ids(before));
        }
    }

    /// Changes node `id` as the request says; audit entry `log_id`, at `now`.
    /// An unknown node is refused with "Node not found". Name, address and
    /// capacity are set where given, the region where given and known; then
    /// an unknown carrier is refused with "Invalid carrier", the changes made
    /// so far staying in place; otherwise the carrier is set, the change is
    /// recorded, and the updated node returned.
    pub fn update_node_at(&mut self, id: u128, req: &UpdateNodeRequest, log_id: u128, now: i128) -> (r: Result<Node, ApiError>)
        requires
            old(self).wf(),
        ensures
            final(self).wf(),
            update_node_outcome(*old(self), *final(self), id, *req, log_id, now, r),
    {
        let i = match self.node_pos(id) {
            Some(i) => i,
            None => return refuse(ErrorKind::NotFound, "Node not found"),
        };
        proof { self.lemma_node_index(id, i as int); }
        let mut n = self.nodes[i].duplicate();
        if let Some(name) = &req.name {
            n.name = name.clone();
        }
        if let Some(addr) = &req.datacenter_address {
            n.datacenter_address = addr.clone();
        }
        if let Some(cap) = req.capacity_gb {
            n.capacity_gb = cap;
        }
        if let Some(region_str) = &req.region {
            if let Some(r) = Region::from_str(region_str.as_str()) {
                n.region = r;
            }
        }
        if let Some(carrier_str) = &req.carrier {
            match parse_carrier(carrier_str.as_str()) {
                Some(c) => {
                    n.carrier = c;
                },
                None => {
                    assert(n@ == node_described(old(self).nodes@[i as int]@, *req));
                    self.replace_node(i, n);
                    return refuse(ErrorKind::BadRequest, "Invalid carrier");
                },
            }
        }
        assert(n@ == node_updated(old(self).nodes@[i as int]@, *req));
        let updated = n.duplicate();
        self.replace_node(i, n);
        let target = id_text(id);
        self.log_audit_at("system", "update_node", target.as_str(), updated.name.as_str(), "success", log_id, now);
        Ok(updated)
    }

    /// Changes node `id` now (see `update_node_at`).
    pub fn update_node(&mut self, id: u128, req: &UpdateNodeRequest) -> (r: Result<Node, ApiError>)
        requires
            old(self).wf(),
        ensures
            final(self).wf(),
            exists|log_id: u128, now: i128| #[trigger] update_node_outcome(*old(self), *final(self), id, *req, log_id, now, r),
    {
        let log_id = new_id();
        let now = now_nanos();
        self.update_node_at(id, req, log_id, now)
    }

    /// The publications on other nodes than `nid`.
    fn publishes_off_node(&self, nid: u128) -> (v: Vec<ResourcePublish>)
        requires
            self.wf(),
        ensures
            v@ == self.resource_publishes@.filter(|p: ResourcePublish| p.node_id != nid),
            distinct(publish_keys(v@)),
    {
        let ghost ps = self.resource_publishes@;
        let ghost keep = |p: ResourcePublish| p.node_id != nid;
        let mut v: Vec<ResourcePublish> = Vec::new();
        let mut i: usize = 0;
        while i < self.resource_publishes.len()
            invariant
                ps == self.resource_publishes@,
                keep == (|p: ResourcePublish| p.node_id != nid),
                0 <= i <= ps.len(),
                v@ == ps.take(i as int).filter(keep),
            decreases ps.len() - i,
        {
            proof { lemma_filter_map_step(ps, i as int, keep, |p: ResourcePublish| p); }
            let p = self.resource_publishes[i];
            if p.node_id != nid {
                v.push(p);
            }
            i += 1;
        }
        assert(ps.take(ps.len() as int) =~= ps);
        proof {
            lemma_distinct_filter(ps, |p: ResourcePublish| (p.resource_id, p.node_id), keep);
            assert(publish_keys(ps) =~= ps.map_values(|p: ResourcePublish| (p.resource_id, p.node_id)));
            assert(publish_keys(v@) =~= v@.map_values(|p: ResourcePublish| (p.resource_id, p.node_id)));
        }
        v
    }

    /// The statistics on other nodes than `nid`.
    fn stats_off_node(&self, nid: u128) -> (v: Vec<StatEntry>)
        requires
            self.wf(),
        ensures
            v@ == self.resource_stats@.filter(|e: StatEntry| e.node_id != nid),
            distinct(stat_keys(v@)),
    {
        let ghost es = self.resource_stats@;
        let ghost keep = |e: StatEntry| e.node_id != nid;
        let mut v: Vec<StatEntry> = Vec::new();
        let mut i: usize = 0;
        while i < self.resource_stats.len()
            invariant
                es == self.resource_stats@,
                keep == (|e: StatEntry| e.node_id != nid),
                0 <= i <= es.len(),
                v@ == es.take(i as int).filter(keep),
            decreases es.len() - i,
        {
            proof { lemma_filter_map_step(es, i as int, keep, |e: StatEntry| e); }
            let e = self.resource_stats[i];
            if e.node_id != nid {
                v.push(e);
            }
            i += 1;
        }
        assert(es.take(es.len() as int) =~= es);
        proof {
            lemma_distinct_filter(es, |e: StatEntry| (e.resource_id, e.node_id), keep);
            assert(stat_keys(es) =~= es.map_values(|e: StatEntry| (e.resource_id, e.node_id)));
            assert(stat_keys(v@) =~= v@.map_values(|e: StatEntry| (e.resource_id, e.node_id)));
        }
        v
    }

    /// Deletes node `id` with its publications and statistics; audit entry
    /// `log_id`, at `now`. An unknown node is refused with "Node not found".
    pub fn delete_node_at(&mut self, id: u128, log_id: u128, now: i128) -> (r: Result<bool, ApiError>)
        requires
            old(self).wf(),
        ensures
            final(self).wf(),
            delete_node_outcome(*old(self), *final(self), id, log_id, now, r),
    {
        let i = match self.node_pos(id) {
            Some(i) => i,
            None => return refuse(ErrorKind::NotFound, "Node not found"),
        };
        proof { self.lemma_node_index(id, i as int); }
        let ghost before = self.nodes@;
        let node = self.nodes.remove(i);
        proof {
            assert(node_ids(self.nodes@) =~= node_ids(before).remove(i as int));
            crate::store::lemma_distinct_remove(node_ids(before), i as int);
        }
        let pubs = self.publishes_off_node(id);
        let stats = self.stats_off_node(id);
        self.resource_publishes = pubs;
        self.resource_stats = stats;
        let target = id_text(id);
        self.log_audit_at("system", "delete_node", target.as_str(), node.name.as_str(), "success", log_id, now);
        Ok(true)
    }

    /// Deletes node `id` now (see `delete_node_at`).
    pub fn delete_node(&mut self, id: u128) -> (r: Result<bool, ApiError>)
        requires
            old(self).wf(),
        ensures
            final(self).wf(),
            exists|log_id: u128, now: i128| #[trigger] delete_node_outcome(*old(self), *final(self), id, log_id, now, r),
    {
        let log_id = new_id();
        let now = now_nanos();
        self.delete_node_at(id, log_id, now)
    }

    /// Sets the status of node `id` and its heartbeat to `now`; audit entry
    /// `log_id`. An unknown status is refused with "Invalid status" first,
    /// then an unknown node with "Node not found".
    pub fn update_node_status_at(&mut self, id: u128, req: &UpdateNodeStatusRequest, log_id: u128, now: i128) -> (r: Result<bool, ApiError>)
        requires
            old(self).wf(),
        ensures
            final(self).wf(),
            node_status_outcome(*old(self), *final(self), id, *req, log_id, now, r),
    {
        let status = match parse_node_status(req.status.as_str()) {
            Some(s) => s,
            None => return refuse(ErrorKind::BadRequest, "Invalid status"),
        };
        let i = match self.node_pos(id) {
            Some(i) => i,
            None => return refuse(ErrorKind::NotFound, "Node not found"),
        };
        proof { self.lemma_node_index(id, i as int); }
        let mut n = self.nodes[i].duplicate();
        n.status = status;
        n.heartbeat_at = now;
        self.replace_node(i, n);
        let target = id_text(id);
        self.log_audit_at(req.operator.as_str(), "update_node_status", target.as_str(), req.status.as_str(), "success", log_id, now);
        Ok(true)
    }

    /// Sets the status of node `id` now (see `update_node_status_at`).
    pub fn update_node_status(&mut self, id: u128, req: &UpdateNodeStatusRequest) -> (r: Result<bool, ApiError>)
        requires
            old(self).wf(),
        ensures
            final(self).wf(),
            exists|log_id: u128, now: i128| #[trigger] node_status_outcome(*old(self), *final(self), id, *req, log_id, now, r),
    {
        let log_id = new_id();
        let now = now_nanos();
        self.update_node_status_at(id, req, log_id, now)
    }

    /// The stored resources published on node `nid` with their hits and misses
    /// there, most hits first (equal counts in the order of the publications);
    /// "Node not found" for an unknown node.
    pub fn list_node_resources(&self, nid: u128) -> (r: Result<Vec<NodeResourceEntry>, ApiError>)
        requires
            self.wf(),
        ensures
            match r {
                Err(_) => refused(r, ErrorKind::NotFound, "Node not found"@) && !has_node(self.nodes@, nid),
                Ok(v) => has_node(self.nodes@, nid) && exists|order: Seq<usize>|
                    is_desc_order(order, entry_hits(node_entries(*self, nid)))
                    && entry_views(v@) == arrange(node_entries(*self, nid), order),
            },
    {
        let at = match self.node_pos(nid) {
            Some(at) => at,
            None => return refuse(ErrorKind::NotFound, "Node not found"),
        };
        assert(has_node(self.nodes@, nid)) by {
            assert(self.nodes@[at as int].id == nid);
        }
        let ghost ps = self.resource_publishes@;
        let ghost p = |q: ResourcePublish| q.node_id == nid && has_resource(self.resources@, q.resource_id);
        let ghost f = |q: ResourcePublish| node_entry(*self, q.resource_id, nid);
        let mut raw: Vec<NodeResourceEntry> = Vec::new();
        let mut i: usize = 0;
        while i < self.resource_publishes.len()
            invariant
                self.wf(),
                ps == self.resource_publishes@,
                p == (|q: ResourcePublish| q.node_id == nid && has_resource(self.resources@, q.resource_id)),
                f == (|q: ResourcePublish| node_entry(*self, q.resource_id, nid)),
                0 <= i <= ps.len(),
                entry_views(raw@) == ps.take(i as int).filter(p).map_values(f),
            decreases ps.len() - i,
        {
            proof { lemma_filter_map_step(ps, i as int, p, f); }
            let q = self.resource_publishes[i];
            if q.node_id == nid {
                if let Some(pos) = self.resource_pos(q.resource_id) {
                    proof { self.lemma_resource_at(pos as int); }
                    let s = self.stats_or_default(q.resource_id, nid);
                    let entry = NodeResourceEntry {
                        resource: self.resources[pos].duplicate(),
                        hit_count: s.hit_count,
                        miss_count: s.miss_count,
                        last_accessed_at: s.last_accessed_at,
                    };
                    let ghost before = raw@;
                    raw.push(entry);
                    assert(entry_views(raw@) =~= entry_views(before).push(f(q)));
                }
            }
            i += 1;
        }
        assert(ps.take(ps.len() as int) =~= ps);
        let ghost rv = entry_views(raw@);
        let mut keys: Vec<i128> = Vec::new();
        let mut k: usize = 0;
        while k < raw.len()
            invariant
                rv == entry_views(raw@),
                0 <= k <= raw@.len(),
                keys@ == entry_hits(rv).take(k as int),
            decreases raw@.len() - k,
        {
            keys.push(raw[k].hit_count as i128);
            assert(keys@ =~= entry_hits(rv).take(k + 1));
            k += 1;
        }
        assert(keys@ =~= entry_hits(rv));
        let order = desc_order(&keys);
        let mut items: Vec<NodeResourceEntry> = Vec::new();
        let mut j: usize = 0;
        while j < order.len()
            invariant
                rv == entry_views(raw@),
                is_desc_order(order@, entry_hits(rv)),
                0 <= j <= order@.len(),
                entry_views(items@) == arrange(rv, order@).take(j as int),
            decreases order@.len() - j,
        {
            let pos = order[j];
            let e = &raw[pos];
            let copy = NodeResourceEntry {
                resource: e.resource.duplicate(),
                hit_count: e.hit_count,
                miss_count: e.miss_count,
                last_accessed_at: e.last_accessed_at,
            };
            let ghost before = items@;
            items.push(copy);
            assert(entry_views(items@) =~= entry_views(before).push(rv[pos as int]));
            assert(entry_views(items@) =~= arrange(rv, order@).take(j + 1));
            j += 1;
        }
        assert(arrange(rv, order@).take(order@.len() as int) =~= arrange(rv, order@));
        assert(rv == node_entries(*self, nid));
        assert(is_desc_order(order@, entry_hits(node_entries(*self, nid)))
            && entry_views(items@) == arrange(node_entries(*self, nid), order@));
        Ok(items)
    }
}

/// A node read back after it was created is the node the request described.
pub proof fn created_node_reads_back(
    old: AppState,
    new: AppState,
    req: CreateNodeRequest,
    node_id: u128,
    log_id: u128,
    now: i128,
    r: Result<u128, ApiError>,
)
    requires
        old.wf(),
        new.wf(),
        create_node_outcome(old, new, req, node_id, log_id, now, r),
        r is Ok,
    ensures
        has_node(new.nodes@, node_id),
        new.nodes@[node_index(new.nodes@, node_id)]@ == created_node(req, node_id, now),
{
    let t = node_views(new.nodes@);
    let tk = node_ids(new.nodes@);
    lemma_upserted_found(
        node_views(old.nodes@),
        node_ids(old.nodes@),
        node_id,
        created_node(req, node_id, now),
        t,
        tk,
        |n: NodeView| n.id,
    );
    let q = choose|q: int| 0 <= q < t.len() && tk[q] == node_id;
    assert(new.nodes@[q].id == node_id);
    let i = node_index(new.nodes@, node_id);
    assert(tk[i] == node_id);
}

/// A node read back after an accepted update is the stored node with every
/// change of the request applied.
pub proof fn updated_node_reads_back(
    old: AppState,
    new: AppState,
    id: u128,
    req: UpdateNodeRequest,
    log_id: u128,
    now: i128,
    r: Result<Node, ApiError>,
)
    requires
        old.wf(),
        new.wf(),
        update_node_outcome(old, new, id, req, log_id, now, r),
        r is Ok,
    ensures
        has_node(new.nodes@, id),
        new.nodes@[node_index(new.nodes@, id)]@
            == node_updated(old.nodes@[node_index(old.nodes@, id)]@, req),
{
    assert(has_node(old.nodes@, id));
    let i = node_index(old.nodes@, id);
    assert(0 <= i < old.nodes@.len() && old.nodes@[i].id == id);
    assert(node_views(new.nodes@).len() == node_views(old.nodes@).len());
    assert(node_views(new.nodes@)[i] == node_updated(old.nodes@[i]@, req));
    assert(node_ids(new.nodes@)[i] == node_views(new.nodes@)[i].id);
    assert(new.nodes@[i].id == id);
    let j = node_index(new.nodes@, id);
    if j != i {
        if j < i {
            assert(node_ids(new.nodes@)[j] != node_ids(new.nodes@)[i]);
        } else {
            assert(node_ids(new.nodes@)[i] != node_ids(new.nodes@)[j]);
        }
    }
}

/// Once a node is deleted, it is gone, and no publication or statistics
/// entry names it any more.
pub proof fn deleted_node_leaves_nothing(
    old: AppState,
    new: AppState,
    id: u128,
    log_id: u128,
    now: i128,
    r: Result<bool, ApiError>,
)
    requires
        old.wf(),
        delete_node_outcome(old, new, id, log_id, now, r),
        r is Ok,
    ensures
        !has_node(new.nodes@, id),
        forall|k: int| 0 <= k < new.resource_publishes@.len() ==> (#[trigger] new.resource_publishes@[k]).node_id != id,
        forall|k: int| 0 <= k < new.resource_stats@.len() ==> (#[trigger] new.resource_stats@[k]).node_id != id,
{
    broadcast use vstd::seq_lib::group_filter_ensures;
    let i = node_index(old.nodes@, id);
    if has_node(new.nodes@, id) {
        let j = choose|j: int| 0 <= j < new.nodes@.len() && new.nodes@[j].id == id;
        let j0 = if j < i { j } else { j + 1 };
        assert(new.nodes@[j] == old.nodes@[j0]);
        assert(node_ids(old.nodes@)[j0] == node_ids(old.nodes@)[i]);
    }
    assert forall|k: int| 0 <= k < new.resource_publishes@.len() implies (#[trigger] new.resource_publishes@[k]).node_id != id by {
        assert(old.resource_publishes@.filter(|p: ResourcePublish| p.node_id != id).len() == new.resource_publishes@.len());
    }
    assert forall|k: int| 0 <= k < new.resource_stats@.len() implies (#[trigger] new.resource_stats@[k]).node_id != id by {
        assert(old.resource_stats@.filter(|e: StatEntry| e.node_id != id).len() == new.resource_stats@.len());
    }
}

} // verus!
