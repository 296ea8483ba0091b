//! The records of the CDN manager: resources, nodes, tasks, audit entries,
//! and the small enumerations with their textual names.
//!
//! Identifiers are 128-bit integers (the value of a UUID) and instants are
//! nanoseconds since the Unix epoch.
use vstd::prelude::*;
use crate::text::{str_equal, owned, chars_of, string_from_chars};

verus! {

/// A role of a signed-in user.
#[derive(Clone, Copy, Debug, PartialEq, Eq, Structural, Hash)]
pub enum UserRole {
    SuperAdmin,
    NodeAdmin,
    BusinessLineAdmin,
}

/// A user as the request headers describe it.
pub struct User {
    pub id: u128,
    pub name: String,
    pub role: UserRole,
    pub managed_nodes: Vec<u128>,
    pub managed_business_lines: Vec<String>,
}

/// A stored file.
pub struct Resource {
    pub id: u128,
    pub original_filename: String,
    pub storage_path: String,
    pub mime_type: String,
    pub size_bytes: u64,
    pub md5: Option<String>,
    pub sha256: String,
    pub uploaded_at: i128,
    pub uploaded_by: String,
    pub business_line: String,
    pub tags: Vec<String>,
    pub version: String,
    pub version_group: u128,
}

/// The mathematical value of a [`Resource`].
pub ghost struct ResourceView {
    pub id: u128,
    pub original_filename: Seq<char>,
    pub storage_path: Seq<char>,
    pub mime_type: Seq<char>,
    pub size_bytes: u64,
    pub md5: Option<Seq<char>>,
    pub sha256: Seq<char>,
    pub uploaded_at: i128,
    pub uploaded_by: Seq<char>,
    pub business_line: Seq<char>,
    pub tags: Seq<Seq<char>>,
    pub version: Seq<char>,
    pub version_group: u128,
}

/// The views of a list of strings.
pub open spec fn texts(v: Seq<String>) -> Seq<Seq<char>> {
    v.map_values(|s: String| s@)
}

/// The view of an optional string.
pub open spec fn opt_text(o: Option<String>) -> Option<Seq<char>> {
    match o {
        Some(s) => Some(s@),
        None => None,
    }
}

impl View for Resource {
    type V = ResourceView;

    open spec fn view(&self) -> ResourceView {
        ResourceView {
            id: self.id,
            original_filename: self.original_filename@,
            storage_path: self.storage_path@,
            mime_type: self.mime_type@,
            size_bytes: self.size_bytes,
            md5: opt_text(self.md5),
            sha256: self.sha256@,
            uploaded_at: self.uploaded_at,
            uploaded_by: self.uploaded_by@,
            business_line: self.business_line@,
            tags: texts(self.tags@),
            version: self.version@,
            version_group: self.version_group,
        }
    }
}

/// A copy of a list of strings.
pub fn copy_texts(v: &Vec<String>) -> (r: Vec<String>)
    ensures
        texts(r@) == texts(v@),
        r@.len() == v@.len(),
{
    let mut r: Vec<String> = Vec::new();
    let mut i: usize = 0;
    while i < v.len()
        invariant
            0 <= i <= v.len(),
            r@.len() == i,
            forall|j: int| 0 <= j < i ==> r@[j]@ == v@[j]@,
        decreases v.len() - i,
    {
        r.push(v[i].clone());
        i += 1;
    }
    assert(texts(r@) =~= texts(v@));
    r
}

/// A copy of a list of identifiers.
pub fn copy_ids(v: &Vec<u128>) -> (r: Vec<u128>)
    ensures
        r@ == v@,
{
    let mut r: Vec<u128> = Vec::new();
    let mut i: usize = 0;
    while i < v.len()
        invariant
            0 <= i <= v.len(),
            r@ == v@.take(i as int),
        decreases v.len() - i,
    {
        r.push(v[i]);
        i += 1;
    }
    assert(v@.take(v.len() as int) =~= v@);
    r
}

/// A copy of an optional string.
pub fn copy_opt_text(o: &Option<String>) -> (r: Option<String>)
    ensures
        opt_text(r) == opt_text(*o),
{
    match o {
        Some(s) => Some(s.clone()),
        None => None,
    }
}

impl Resource {
    /// A copy of this resource.
    pub fn duplicate(&self) -> (r: Resource)
        ensures
            r@ == self@,
    {
        Resource {
            id: self.id,
            original_filename: self.original_filename.clone(),
            storage_path: self.storage_path.clone(),
            mime_type: self.mime_type.clone(),
            size_bytes: self.size_bytes,
            md5: copy_opt_text(&self.md5),
            sha256: self.sha256.clone(),
            uploaded_at: self.uploaded_at,
            uploaded_by: self.uploaded_by.clone(),
            business_line: self.business_line.clone(),
            tags: copy_texts(&self.tags),
            version: self.version.clone(),
            version_group: self.version_group,
        }
    }
}

/// Hits and misses of one resource on one node.
#[derive(Clone, Copy, Debug)]
pub struct ResourceStats {
    pub hit_count: u64,
    pub miss_count: u64,
    pub last_accessed_at: Option<i128>,
}

impl ResourceStats {
    /// No hits, no misses, never accessed.
    pub open spec fn empty() -> ResourceStats {
        ResourceStats { hit_count: 0, miss_count: 0, last_accessed_at: None }
    }
}

impl Default for ResourceStats {
    fn default() -> (r: Self)
        ensures
            r == ResourceStats::empty(),
    {
        ResourceStats { hit_count: 0, miss_count: 0, last_accessed_at: None }
    }
}

/// The state of a node.
#[derive(Clone, Copy, Debug, PartialEq, Eq, Structural, Hash)]
pub enum NodeStatus {
    Online,
    Offline,
    Maintenance,
}

/// A region of the country.
#[derive(Clone, Copy, Debug, PartialEq, Eq, Structural, Hash)]
pub enum Region {
    NorthChina,
    EastChina,
    SouthChina,
    CentralChina,
    Southwest,
    Northwest,
    Northeast,
}

/// The Chinese name of a region.
pub open spec fn region_label(r: Region) -> Seq<char> {
    match r {
        Region::NorthChina => "华北"@,
        Region::EastChina => "华东"@,
        Region::SouthChina => "华南"@,
        Region::CentralChina => "华中"@,
        Region::Southwest => "西南"@,
        Region::Northwest => "西北"@,
        Region::Northeast => "东北"@,
    }
}

/// The region whose Chinese name is `s`, if any.
pub open spec fn region_named(s: Seq<char>) -> Option<Region> {
    if s == "华北"@ { Some(Region::NorthChina) }
    else if s == "华东"@ { Some(Region::EastChina) }
    else if s == "华南"@ { Some(Region::SouthChina) }
    else if s == "华中"@ { Some(Region::CentralChina) }
    else if s == "西南"@ { Some(Region::Southwest) }
    else if s == "西北"@ { Some(Region::Northwest) }
    else if s == "东北"@ { Some(Region::Northeast) }
    else { None }
}

impl Region {
    /// The Chinese name of the region.
    pub fn to_string(&self) -> (s: &'static str)
        ensures
            s@ == region_label(*self),
    {
        match self {
            Region::NorthChina => "华北",
            Region::EastChina => "华东",
            Region::SouthChina => "华南",
            Region::CentralChina => "华中",
            Region::Southwest => "西南",
            Region::Northwest => "西北",
            Region::Northeast => "东北",
        }
    }

    /// The region with the Chinese name `s`, or `None` for any other text.
    pub fn from_str(s: &str) -> (r: Option<Region>)
        ensures
            r == region_named(s@),
    {
        if str_equal(s, "华北") { Some(Region::NorthChina) }
        else if str_equal(s, "华东") { Some(Region::EastChina) }
        else if str_equal(s, "华南") { Some(Region::SouthChina) }
        else if str_equal(s, "华中") { Some(Region::CentralChina) }
        else if str_equal(s, "西南") { Some(Region::Southwest) }
        else if str_equal(s, "西北") { Some(Region::Northwest) }
        else if str_equal(s, "东北") { Some(Region::Northeast) }
        else { None }
    }
}

/// Every region is found again by its name, and no other region has that name.
pub proof fn region_name_round_trip(r: Region)
    ensures
        region_named(region_label(r)) == Some(r),
{
    reveal_strlit("华北");
    reveal_strlit("华东");
    reveal_strlit("华南");
    reveal_strlit("华中");
    reveal_strlit("西南");
    reveal_strlit("西北");
    reveal_strlit("东北");
    let names = seq!["华北"@, "华东"@, "华南"@, "华中"@, "西南"@, "西北"@, "东北"@];
    assert forall|i: int, j: int| 0 <= i < j < 7 implies names[i] != names[j] by {
        assert(names[i][0] != names[j][0] || names[i][1] != names[j][1]);
    }
    assert(names[0] != names[1] && names[0] != names[2] && names[0] != names[3]);
    assert(names[0] != names[4] && names[0] != names[5] && names[0] != names[6]);
    assert(names[1] != names[2] && names[1] != names[3] && names[1] != names[4]);
    assert(names[1] != names[5] && names[1] != names[6] && names[2] != names[3]);
    assert(names[2] != names[4] && names[2] != names[5] && names[2] != names[6]);
    assert(names[3] != names[4] && names[3] != names[5] && names[3] != names[6]);
    assert(names[4] != names[5] && names[4] != names[6] && names[5] != names[6]);
}

/// The network carrier of a node.
#[derive(Clone, Copy, Debug, PartialEq, Eq, Structural, Hash)]
pub enum Carrier {
    Telecom,
    Unicom,
    Mobile,
    MultiLine,
}

/// The Chinese name of a carrier.
pub open spec fn carrier_label(c: Carrier) -> Seq<char> {
    match c {
        Carrier::Telecom => "电信"@,
        Carrier::Unicom => "联通"@,
        Carrier::Mobile => "移动"@,
        Carrier::MultiLine => "多线"@,
    }
}

/// The carrier whose Chinese name is `s`, if any.
pub open spec fn carrier_named(s: Seq<char>) -> Option<Carrier> {
    if s == "电信"@ { Some(Carrier::Telecom) }
    else if s == "联通"@ { Some(Carrier::Unicom) }
    else if s == "移动"@ { Some(Carrier::Mobile) }
    else if s == "多线"@ { Some(Carrier::MultiLine) }
    else { None }
}

impl Carrier {
    /// The Chinese name of the carrier.
    pub fn to_string(&self) -> (s: &'static str)
        ensures
            s@ == carrier_label(*self),
    {
        match self {
            Carrier::Telecom => "电信",
            Carrier::Unicom => "联通",
            Carrier::Mobile => "移动",
            Carrier::MultiLine => "多线",
        }
    }
}

/// The carrier named `s`, as the node requests accept it.
pub fn parse_carrier(s: &str) -> (r: Option<Carrier>)
    ensures
        r == carrier_named(s@),
{
    if str_equal(s, "电信") { Some(Carrier::Telecom) }
    else if str_equal(s, "联通") { Some(Carrier::Unicom) }
    else if str_equal(s, "移动") { Some(Carrier::Mobile) }
    else if str_equal(s, "多线") { Some(Carrier::MultiLine) }
    else { None }
}

/// Every carrier is found again by its name.
pub proof fn carrier_name_round_trip(c: Carrier)
    ensures
        carrier_named(carrier_label(c)) == Some(c),
{
    reveal_strlit("电信");
    reveal_strlit("联通");
    reveal_strlit("移动");
    reveal_strlit("多线");
    assert("电信"@[0] != "联通"@[0] && "电信"@[0] != "移动"@[0] && "电信"@[0] != "多线"@[0]);
    assert("联通"@[0] != "移动"@[0] && "联通"@[0] != "多线"@[0] && "移动"@[0] != "多线"@[0]);
}

/// The node status named `s` in requests and queries.
pub open spec fn node_status_named(s: Seq<char>) -> Option<NodeStatus> {
    if s == "online"@ { Some(NodeStatus::Online) }
    else if s == "offline"@ { Some(NodeStatus::Offline) }
    else if s == "maintenance"@ { Some(NodeStatus::Maintenance) }
    else { None }
}

/// The node status named `s`, or `None` for any other text.
pub fn parse_node_status(s: &str) -> (r: Option<NodeStatus>)
    ensures
        r == node_status_named(s@),
{
    if str_equal(s, "online") { Some(NodeStatus::Online) }
    else if str_equal(s, "offline") { Some(NodeStatus::Offline) }
    else if str_equal(s, "maintenance") { Some(NodeStatus::Maintenance) }
    else { None }
}

/// A node of the CDN.
pub struct Node {
    pub id: u128,
    pub name: String,
    pub region: Region,
    pub datacenter_address: String,
    pub carrier: Carrier,
    pub capacity_gb: u64,
    pub used_gb: u64,
    pub status: NodeStatus,
    pub heartbeat_at: i128,
}

/// The mathematical value of a [`Node`].
pub ghost struct NodeView {
    pub id: u128,
    pub name: Seq<char>,
    pub region: Region,
    pub datacenter_address: Seq<char>,
    pub carrier: Carrier,
    pub capacity_gb: u64,
    pub used_gb: u64,
    pub status: NodeStatus,
    pub heartbeat_at: i128,
}

impl View for Node {
    type V = NodeView;

    open spec fn view(&self) -> NodeView {
        NodeView {
            id: self.id,
            name: self.name@,
            region: self.region,
            datacenter_address: self.datacenter_address@,
            carrier: self.carrier,
            capacity_gb: self.capacity_gb,
            used_gb: self.used_gb,
            status: self.status,
            heartbeat_at: self.heartbeat_at,
        }
    }
}

impl Node {
    /// A copy of this node.
    pub fn duplicate(&self) -> (r: Node)
        ensures
            r == *self,
    {
        Node {
            id: self.id,
            name: self.name.clone(),
            region: self.region,
            datacenter_address: self.datacenter_address.clone(),
            carrier: self.carrier,
            capacity_gb: self.capacity_gb,
            used_gb: self.used_gb,
            status: self.status,
            heartbeat_at: self.heartbeat_at,
        }
    }
}

/// The key of a publication: a resource on a node.
#[derive(Clone, Copy, Debug, PartialEq, Eq, Structural, Hash)]
pub struct ResourcePublishKey {
    pub resource_id: u128,
    pub node_id: u128,
}

/// A resource published on a node.
#[derive(Clone, Copy, Debug)]
pub struct ResourcePublish {
    pub resource_id: u128,
    pub node_id: u128,
    pub published_at: i128,
}

/// The state of a preheat or purge task.
#[derive(Clone, Copy, Debug, PartialEq, Eq, Structural, Hash)]
pub enum TaskStatus {
    Pending,
    Running,
    Done,
    Partial,
    Failed,
    Cancelled,
}

/// The task status named `s` in queries.
pub open spec fn task_status_named(s: Seq<char>) -> Option<TaskStatus> {
    if s == "pending"@ { Some(TaskStatus::Pending) }
    else if s == "running"@ { Some(TaskStatus::Running) }
    else if s == "done"@ { Some(TaskStatus::Done) }
    else if s == "partial"@ { Some(TaskStatus::Partial) }
    else if s == "failed"@ { Some(TaskStatus::Failed) }
    else if s == "cancelled"@ { Some(TaskStatus::Cancelled) }
    else { None }
}

/// The task status named `s`, or `None` for any other text.
pub fn parse_task_status(s: &str) -> (r: Option<TaskStatus>)
    ensures
        r == task_status_named(s@),
{
    if str_equal(s, "pending") { Some(TaskStatus::Pending) }
    else if str_equal(s, "running") { Some(TaskStatus::Running) }
    else if str_equal(s, "done") { Some(TaskStatus::Done) }
    else if str_equal(s, "partial") { Some(TaskStatus::Partial) }
    else if str_equal(s, "failed") { Some(TaskStatus::Failed) }
    else if str_equal(s, "cancelled") { Some(TaskStatus::Cancelled) }
    else { None }
}

/// The priority of a preheat task.
#[derive(Clone, Copy, Debug, PartialEq, Eq, Structural, PartialOrd, Ord, Hash)]
pub enum TaskPriority {
    Low,
    Medium,
    High,
}

/// The priority a preheat request names: "high", "medium" or "low"; anything
/// else, or nothing, is medium.
pub open spec fn priority_named(s: Option<Seq<char>>) -> TaskPriority {
    match s {
        Some(t) => if t == "high"@ {
            TaskPriority::High
        } else if t == "low"@ {
            TaskPriority::Low
        } else {
            TaskPriority::Medium
        },
        None => TaskPriority::Medium,
    }
}

/// The priority a preheat request names.
pub fn parse_priority(s: Option<&str>) -> (r: TaskPriority)
    ensures
        r == priority_named(match s { Some(t) => Some(t@), None => None }),
{
    match s {
        Some(t) => if str_equal(t, "high") {
            TaskPriority::High
        } else if str_equal(t, "low") {
            TaskPriority::Low
        } else {
            TaskPriority::Medium
        },
        None => TaskPriority::Medium,
    }
}

/// A preheat task: copy resources onto nodes ahead of demand.
pub struct PreheatTask {
    pub task_id: u128,
    pub resource_ids: Vec<u128>,
    pub node_ids: Vec<u128>,
    pub status: TaskStatus,
    pub priority: TaskPriority,
    pub total: u64,
    pub done: u64,
    pub failed: u64,
    pub failed_resources: Vec<u128>,
    pub started_at: Option<i128>,
    pub finished_at: Option<i128>,
    pub created_by: String,
    pub estimated_duration_secs: u64,
    pub created_at: i128,
}

/// The mathematical value of a [`PreheatTask`].
pub ghost struct PreheatTaskView {
    pub task_id: u128,
    pub resource_ids: Seq<u128>,
    pub node_ids: Seq<u128>,
    pub status: TaskStatus,
    pub priority: TaskPriority,
    pub total: u64,
    pub done: u64,
    pub failed: u64,
    pub failed_resources: Seq<u128>,
    pub started_at: Option<i128>,
    pub finished_at: Option<i128>,
    pub created_by: Seq<char>,
    pub estimated_duration_secs: u64,
    pub created_at: i128,
}

impl View for PreheatTask {
    type V = PreheatTaskView;

    open spec fn view(&self) -> PreheatTaskView {
        PreheatTaskView {
            task_id: self.task_id,
            resource_ids: self.resource_ids@,
            node_ids: self.node_ids@,
            status: self.status,
            priority: self.priority,
            total: self.total,
            done: self.done,
            failed: self.failed,
            failed_resources: self.failed_resources@,
            started_at: self.started_at,
            finished_at: self.finished_at,
            created_by: self.created_by@,
            estimated_duration_secs: self.estimated_duration_secs,
            created_at: self.created_at,
        }
    }
}

impl PreheatTask {
    /// The same task, held separately.
    pub fn duplicate(&self) -> (r: PreheatTask)
        ensures
            r@ == self@,
    {
        PreheatTask {
            task_id: self.task_id,
            resource_ids: copy_ids(&self.resource_ids),
            node_ids: copy_ids(&self.node_ids),
            status: self.status,
            priority: self.priority,
            total: self.total,
            done: self.done,
            failed: self.failed,
            failed_resources: copy_ids(&self.failed_resources),
            started_at: self.started_at,
            finished_at: self.finished_at,
            created_by: self.created_by.clone(),
            estimated_duration_secs: self.estimated_duration_secs,
            created_at: self.created_at,
        }
    }
}

/// How a purge chooses what it removes.
#[derive(Clone, Copy, Debug, PartialEq, Eq, Structural, Hash)]
pub enum PurgeType {
    ByNode,
    ByResource,
    ByTime,
}

/// The purge type named `s` in requests and queries.
pub open spec fn purge_type_named(s: Seq<char>) -> Option<PurgeType> {
    if s == "by_node"@ { Some(PurgeType::ByNode) }
    else if s == "by_resource"@ { Some(PurgeType::ByResource) }
    else if s == "by_time"@ { Some(PurgeType::ByTime) }
    else { None }
}

/// The purge type named `s`, or `None` for any other text.
pub fn parse_purge_type(s: &str) -> (r: Option<PurgeType>)
    ensures
        r == purge_type_named(s@),
{
    if str_equal(s, "by_node") { Some(PurgeType::ByNode) }
    else if str_equal(s, "by_resource") { Some(PurgeType::ByResource) }
    else if str_equal(s, "by_time") { Some(PurgeType::ByTime) }
    else { None }
}

/// The debug name of a purge type, as the audit trail records it.
pub open spec fn purge_type_label(t: PurgeType) -> Seq<char> {
    match t {
        PurgeType::ByNode => "ByNode"@,
        PurgeType::ByResource => "ByResource"@,
        PurgeType::ByTime => "ByTime"@,
    }
}

/// The debug name of a purge type.
pub fn purge_type_text(t: PurgeType) -> (s: String)
    ensures
        s@ == purge_type_label(t),
{
    match t {
        PurgeType::ByNode => owned("ByNode"),
        PurgeType::ByResource => owned("ByResource"),
        PurgeType::ByTime => owned("ByTime"),
    }
}

/// A purge task: remove resources from nodes.
pub struct PurgeTask {
    pub task_id: u128,
    pub purge_type: PurgeType,
    pub node_ids: Vec<u128>,
    pub resource_ids: Vec<u128>,
    pub days_not_accessed: Option<u32>,
    pub mime_types: Vec<String>,
    pub status: TaskStatus,
    pub total: u64,
    pub done: u64,
    pub failed: u64,
    pub started_at: Option<i128>,
    pub finished_at: Option<i128>,
    pub created_by: String,
    pub dry_run: bool,
    pub created_at: i128,
}

/// The mathematical value of a [`PurgeTask`].
pub ghost struct PurgeTaskView {
    pub task_id: u128,
    pub purge_type: PurgeType,
    pub node_ids: Seq<u128>,
    pub resource_ids: Seq<u128>,
    pub days_not_accessed: Option<u32>,
    pub mime_types: Seq<Seq<char>>,
    pub status: TaskStatus,
    pub total: u64,
    pub done: u64,
    pub failed: u64,
    pub started_at: Option<i128>,
    pub finished_at: Option<i128>,
    pub created_by: Seq<char>,
    pub dry_run: bool,
    pub created_at: i128,
}

impl View for PurgeTask {
    type V = PurgeTaskView;

    open spec fn view(&self) -> PurgeTaskView {
        PurgeTaskView {
            task_id: self.task_id,
            purge_type: self.purge_type,
            node_ids: self.node_ids@,
            resource_ids: self.resource_ids@,
            days_not_accessed: self.days_not_accessed,
            mime_types: texts(self.mime_types@),
            status: self.status,
            total: self.total,
            done: self.done,
            failed: self.failed,
            started_at: self.started_at,
            finished_at: self.finished_at,
            created_by: self.created_by@,
            dry_run: self.dry_run,
            created_at: self.created_at,
        }
    }
}

impl PurgeTask {
    /// The same task, held separately.
    pub fn duplicate(&self) -> (r: PurgeTask)
        ensures
            r@ == self@,
    {
        PurgeTask {
            task_id: self.task_id,
            purge_type: self.purge_type,
            node_ids: copy_ids(&self.node_ids),
            resource_ids: copy_ids(&self.resource_ids),
            days_not_accessed: self.days_not_accessed,
            mime_types: copy_texts(&self.mime_types),
            status: self.status,
            total: self.total,
            done: self.done,
            failed: self.failed,
            started_at: self.started_at,
            finished_at: self.finished_at,
            created_by: self.created_by.clone(),
            dry_run: self.dry_run,
            created_at: self.created_at,
        }
    }
}

/// A publication waiting to be removed at `expected_delete_time`.
#[derive(Clone, Copy, Debug)]
pub struct DelayedPurgeItem {
    pub resource_id: u128,
    pub node_id: u128,
    pub expected_delete_time: i128,
    pub task_id: u128,
}

impl PartialEq for DelayedPurgeItem {
    /// Two waiting removals are the same when they remove the same resource
    /// from the same node at the same instant, whichever task asked.
    fn eq(&self, other: &Self) -> (r: bool) {
        self.resource_id == other.resource_id
            && self.node_id == other.node_id
            && self.expected_delete_time == other.expected_delete_time
    }
}

impl vstd::std_specs::cmp::PartialEqSpecImpl for DelayedPurgeItem {
    open spec fn obeys_eq_spec() -> bool {
        true
    }

    open spec fn eq_spec(&self, other: &Self) -> bool {
        self.resource_id == other.resource_id
            && self.node_id == other.node_id
            && self.expected_delete_time == other.expected_delete_time
    }
}

/// An entry of the audit trail.
pub struct AuditLog {
    pub id: u128,
    pub actor: String,
    pub action: String,
    pub target: String,
    pub scope: String,
    pub timestamp: i128,
    pub result: String,
}

/// The mathematical value of an [`AuditLog`].
pub ghost struct AuditLogView {
    pub id: u128,
    pub actor: Seq<char>,
    pub action: Seq<char>,
    pub target: Seq<char>,
    pub scope: Seq<char>,
    pub timestamp: i128,
    pub result: Seq<char>,
}

impl View for AuditLog {
    type V = AuditLogView;

    open spec fn view(&self) -> AuditLogView {
        AuditLogView {
            id: self.id,
            actor: self.actor@,
            action: self.action@,
            target: self.target@,
            scope: self.scope@,
            timestamp: self.timestamp,
            result: self.result@,
        }
    }
}

impl AuditLog {
    /// A copy of this entry.
    pub fn duplicate(&self) -> (r: AuditLog)
        ensures
            r == *self,
    {
        AuditLog {
            id: self.id,
            actor: self.actor.clone(),
            action: self.action.clone(),
            target: self.target.clone(),
            scope: self.scope.clone(),
            timestamp: self.timestamp,
            result: self.result.clone(),
        }
    }
}

/// A node of the directory tree of the stored files.
pub struct DirectoryNode {
    pub name: String,
    pub path: String,
    pub is_dir: bool,
    pub children: Vec<DirectoryNode>,
    pub resource_id: Option<u128>,
}

/// Hits and misses grouped under one key (a node, a resource or a period).
pub struct HitRateEntry {
    pub key: String,
    pub hit_count: u64,
    pub miss_count: u64,
}

/// Requests and hits within one hour or one day.
#[derive(Clone, Copy, Debug)]
pub struct TrendPoint {
    pub timestamp: i128,
    pub requests: u64,
    pub hits: u64,
}

/// The bytes a node holds against its capacity.
pub struct NodeUsage {
    pub name: String,
    pub used_bytes: u64,
    pub capacity_gb: u64,
}

/// The dashboard figures.
pub struct OverviewStats {
    pub total_resources: u64,
    pub total_nodes: u64,
    pub total_hits: u64,
    pub total_misses: u64,
    pub total_requests_today: u64,
    pub total_hits_today: u64,
    pub top_hot_resources: Vec<(String, u64)>,
    pub top_cold_resources: Vec<(String, u64)>,
    pub node_capacity_usage: Vec<NodeUsage>,
    pub active_preheat_tasks: u64,
    pub active_purge_tasks: u64,
}

/// The envelope of every answer.
pub struct ApiResponse<T> {
    pub success: bool,
    pub data: Option<T>,
    pub message: Option<String>,
}

impl<T> ApiResponse<T> {
    /// A successful answer carrying `data`.
    pub fn ok(data: T) -> (r: Self)
        ensures
            r.success,
            r.data == Some(data),
            r.message.is_none(),
    {
        ApiResponse { success: true, data: Some(data), message: None }
    }

    /// A failed answer carrying `message`.
    pub fn error(message: &str) -> (r: Self)
        ensures
            !r.success,
            r.data.is_none(),
            opt_text(r.message) == Some(message@),
    {
        ApiResponse { success: false, data: None, message: Some(owned(message)) }
    }
}

/// One page of a listing.
pub struct PagedResult<T> {
    pub items: Vec<T>,
    pub total: u64,
    pub page: u64,
    pub page_size: u64,
}

} // verus!
