use cdn_backend::store::{AppState, ApiError, ErrorKind, StatEntry};
use cdn_backend::models::{TaskStatus, TaskPriority, ResourceStats, ResourcePublish, PurgeType, NodeStatus};
use cdn_backend::nodes::{CreateNodeRequest, UpdateNodeStatusRequest};
use cdn_backend::resources::CreateResourceRequest;
use cdn_backend::preheat::{CreatePreheatRequest, PreheatTaskQuery, preheat_final_status, estimate_secs};
use cdn_backend::purge::{CreatePurgeRequest, PurgeTaskQuery};

fn ok<T>(r: Result<T, ApiError>) -> T {
    match r {
        Ok(v) => v,
        Err(e) => panic!("refused: {}", e.message),
    }
}

fn refusal<T>(r: Result<T, ApiError>) -> (ErrorKind, String) {
    match r {
        Ok(_) => panic!("accepted"),
        Err(e) => (e.kind, e.message),
    }
}

fn add_node(st: &mut AppState, name: &str, online: bool) -> u128 {
    let id = ok(st.create_node(&CreateNodeRequest {
        name: name.to_string(),
        region: "华北".to_string(),
        datacenter_address: "addr".to_string(),
        carrier: "电信".to_string(),
        capacity_gb: 10,
        operator: "ops".to_string(),
    }));
    if online {
        ok(st.update_node_status(id, &UpdateNodeStatusRequest { status: "online".to_string(), operator: "ops".to_string() }));
    }
    id
}

fn add_resource(st: &mut AppState, name: &str, mime: &str, size: u64) -> u128 {
    ok(st.create_resource(&CreateResourceRequest {
        original_filename: name.to_string(),
        storage_path: format!("/{}", name),
        mime_type: mime.to_string(),
        size_bytes: size,
        sha256: None,
        uploaded_by: "alice".to_string(),
        business_line: "games".to_string(),
        tags: vec![],
        version: None,
        version_group: None,
    }))
}

fn preheat_req(rids: Vec<u128>, nids: Vec<u128>, priority: Option<&str>) -> CreatePreheatRequest {
    CreatePreheatRequest { resource_ids: rids, node_ids: nids, priority: priority.map(|p| p.to_string()), created_by: "carol".to_string() }
}

#[test]
fn preheat_requests_are_checked() {
    let mut st = AppState::new();
    let n = add_node(&mut st, "n", true);
    let r = add_resource(&mut st, "a.png", "image/png", 30 * 1024 * 1024);
    assert_eq!(refusal(st.create_preheat_task(&preheat_req(vec![], vec![n], None)).unwrap()).1, "No resources specified");
    assert_eq!(refusal(st.create_preheat_task(&preheat_req(vec![r], vec![], None)).unwrap()).1, "No nodes specified");
    let ghost = r.wrapping_add(1);
    let msg = refusal(st.create_preheat_task(&preheat_req(vec![r, ghost], vec![n], None)).unwrap()).1;
    assert_eq!(msg, format!("Resource {} not found", uuid::Uuid::from_u128(ghost)));
    let msg = refusal(st.create_preheat_task(&preheat_req(vec![r], vec![ghost], None)).unwrap()).1;
    assert_eq!(msg, format!("Node {} not found", uuid::Uuid::from_u128(ghost)));
    assert!(st.preheat_tasks.is_empty());
    let id = ok(st.create_preheat_task(&preheat_req(vec![r, r], vec![n], Some("urgent"))).unwrap());
    let t = ok(st.get_preheat_task(id));
    assert_eq!(t.status, TaskStatus::Pending);
    assert_eq!(t.priority, TaskPriority::Medium);
    assert_eq!(t.total, 2);
    assert_eq!(t.estimated_duration_secs, 10);
    let log = st.audit_logs.last().unwrap();
    assert_eq!(log.action, "create_preheat");
    assert_eq!(log.scope, "2 resources, 1 nodes");
    assert_eq!(log.actor, "carol");
}

#[test]
fn preheat_estimates() {
    assert_eq!(estimate_secs(0), 10);
    assert_eq!(estimate_secs(10 * 1024 * 1024 * 25), 25);
    assert_eq!(estimate_secs(10 * 1024 * 1024 * 25 + 1), 25);
}

#[test]
fn queue_hands_out_low_priority_first() {
    let mut st = AppState::new();
    let n = add_node(&mut st, "n", true);
    let r = add_resource(&mut st, "a.png", "image/png", 1);
    let high = ok(st.create_preheat_task(&preheat_req(vec![r], vec![n], Some("high"))).unwrap());
    let low = ok(st.create_preheat_task(&preheat_req(vec![r], vec![n], Some("low"))).unwrap());
    let mid = ok(st.create_preheat_task(&preheat_req(vec![r], vec![n], None)).unwrap());
    ok(st.cancel_preheat_task(mid));
    assert_eq!(st.start_next_preheat(), Some(low));
    assert_eq!(ok(st.get_preheat_task(low)).status, TaskStatus::Running);
    assert!(ok(st.get_preheat_task(low)).started_at.is_some());
    assert_eq!(st.start_next_preheat(), None);
    assert_eq!(st.start_next_preheat(), Some(high));
    assert_eq!(st.start_next_preheat(), None);
}

fn run(st: &mut AppState, task: u128, luck: &[bool]) {
    let mut run = st.begin_preheat_run(task).unwrap();
    let mut k = 0;
    while let Some((rid, nid)) = run.next_pair() {
        assert!(!st.preheat_cancelled(task));
        let ok = st.simulate_preheat_one_at(rid, nid, luck[k], 1_000);
        run.record(ok);
        st.record_preheat_progress(&run);
        k += 1;
    }
    st.finish_preheat_at(&run, 2_000);
}

#[test]
fn preheat_runs_end_in_the_right_status() {
    let mut st = AppState::new();
    let on = add_node(&mut st, "on", true);
    let off = add_node(&mut st, "off", false);
    let a = add_resource(&mut st, "a.png", "image/png", 1);
    let b = add_resource(&mut st, "b.png", "image/png", 1);
    let t1 = ok(st.create_preheat_task(&preheat_req(vec![a, b], vec![on], None)).unwrap());
    run(&mut st, t1, &[true, true]);
    let t = ok(st.get_preheat_task(t1));
    assert_eq!(t.status, TaskStatus::Done);
    assert_eq!((t.done, t.failed), (2, 0));
    assert_eq!(t.finished_at, Some(2_000));
    assert_eq!(st.resource_publishes.len(), 2);
    assert_eq!(st.request_history.len(), 2);
    assert!(st.request_history.iter().all(|r| r.hit && r.node_id == Some(on) && r.at == 1_000));
    let t2 = ok(st.create_preheat_task(&preheat_req(vec![a, b], vec![on, off], None)).unwrap());
    run(&mut st, t2, &[true, false, true, true]);
    let t = ok(st.get_preheat_task(t2));
    assert_eq!(t.status, TaskStatus::Partial);
    assert_eq!((t.done, t.failed), (1, 3));
    assert_eq!(t.failed_resources, vec![b, a]);
    assert_eq!(t.done + t.failed, t.total);
    let hits_a_on = st.resource_stats.iter().find(|e| e.resource_id == a && e.node_id == on).unwrap().stats.hit_count;
    assert_eq!(hits_a_on, 2);
    let t3 = ok(st.create_preheat_task(&preheat_req(vec![a], vec![off], None)).unwrap());
    run(&mut st, t3, &[true]);
    assert_eq!(ok(st.get_preheat_task(t3)).status, TaskStatus::Failed);
    assert_eq!(preheat_final_status(0, 0), TaskStatus::Done);
    assert_eq!(preheat_final_status(3, 1), TaskStatus::Partial);
    assert_eq!(preheat_final_status(0, 1), TaskStatus::Failed);
    let retry = ok(st.retry_preheat_task(t2).unwrap());
    let r = ok(st.get_preheat_task(retry));
    assert_eq!(r.resource_ids, vec![b, a]);
    assert_eq!(r.node_ids, vec![on, off]);
    assert_eq!(r.total, 4);
    assert_eq!(r.status, TaskStatus::Pending);
    assert_eq!(st.audit_logs.last().unwrap().scope, format!("retry of {}", uuid::Uuid::from_u128(t2)));
    assert_eq!(refusal(st.retry_preheat_task(t1).unwrap()).1, "No failed resources to retry");
    assert_eq!(refusal(st.retry_preheat_task(retry.wrapping_add(1)).unwrap()).0, ErrorKind::NotFound);
}

#[test]
fn cancelling_twice_is_refused() {
    let mut st = AppState::new();
    let n = add_node(&mut st, "n", true);
    let r = add_resource(&mut st, "a.png", "image/png", 1);
    let t = ok(st.create_preheat_task(&preheat_req(vec![r], vec![n], None)).unwrap());
    assert!(ok(st.cancel_preheat_task(t)));
    let task = ok(st.get_preheat_task(t));
    assert_eq!(task.status, TaskStatus::Cancelled);
    assert!(task.finished_at.is_some());
    assert!(st.preheat_cancelled(t));
    let logs = st.audit_logs.len();
    assert_eq!(refusal(st.cancel_preheat_task(t)), (ErrorKind::BadRequest, "Task already finished".to_string()));
    assert_eq!(st.audit_logs.len(), logs);
    assert_eq!(refusal(st.cancel_preheat_task(t.wrapping_add(1))), (ErrorKind::NotFound, "Task not found".to_string()));
    let q = PreheatTaskQuery { page: None, page_size: None, status: Some("cancelled".to_string()) };
    assert_eq!(ok(st.list_preheat_tasks(&q)).total, 1);
    let bad = PreheatTaskQuery { page: None, page_size: None, status: Some("paused".to_string()) };
    assert_eq!(refusal(st.list_preheat_tasks(&bad)).1, "Invalid status");
}

fn purge_req(t: &str, nodes: Option<Vec<u128>>, res: Option<Vec<u128>>, days: Option<u32>, dry: Option<bool>) -> CreatePurgeRequest {
    CreatePurgeRequest {
        purge_type: t.to_string(),
        node_ids: nodes,
        resource_ids: res,
        days_not_accessed: days,
        mime_types: None,
        created_by: "dave".to_string(),
        dry_run: dry,
    }
}

#[test]
fn purge_requests_are_checked() {
    let mut st = AppState::new();
    let n = add_node(&mut st, "n", true);
    let cases = [
        (purge_req("everything", Some(vec![n]), None, None, None), "Invalid purge type".to_string()),
        (purge_req("by_node", None, None, None, None), "No nodes specified".to_string()),
        (purge_req("by_resource", Some(vec![n]), Some(vec![]), None, None), "No resources specified".to_string()),
        (purge_req("by_time", None, None, Some(3), None), "No nodes specified for time-based purge".to_string()),
        (purge_req("by_time", Some(vec![n]), None, None, None), "days_not_accessed is required for time-based purge".to_string()),
        (purge_req("by_node", Some(vec![n, n.wrapping_add(1)]), None, None, None), format!("Node {} not found", uuid::Uuid::from_u128(n.wrapping_add(1)))),
    ];
    for (req, msg) in cases.iter() {
        assert_eq!(refusal(st.create_purge_task(req).unwrap()), (ErrorKind::BadRequest, msg.clone()));
    }
    assert!(st.purge_tasks.is_empty());
}

#[test]
fn purge_by_node_then_cleanup() {
    let mut st = AppState::new();
    let n1 = add_node(&mut st, "n1", true);
    let n2 = add_node(&mut st, "n2", true);
    let a = add_resource(&mut st, "a.png", "image/png", 5);
    let b = add_resource(&mut st, "b.js", "application/javascript", 9);
    for (r, n) in [(a, n1), (b, n1), (a, n2)] {
        st.resource_publishes.push(ResourcePublish { resource_id: r, node_id: n, published_at: 0 });
        st.resource_stats.push(StatEntry { resource_id: r, node_id: n, stats: ResourceStats { hit_count: 1, miss_count: 0, last_accessed_at: Some(0) } });
    }
    let req = purge_req("by_node", Some(vec![n1]), None, None, Some(true));
    let preview = ok(st.dry_run_purge(&req).unwrap());
    assert_eq!(preview.total_resources, 2);
    assert_eq!(preview.total_size_bytes, 14);
    assert_eq!(preview.resources[0].resource_id, b);
    assert_eq!(preview.resources[1].resource_id, a);
    assert_eq!(preview.resources[0].node_name, "n1");
    let id = ok(st.create_purge_task(&req).unwrap());
    let task = ok(st.get_purge_task(id));
    assert_eq!(task.purge_type, PurgeType::ByNode);
    assert_eq!(task.total, 2);
    assert!(task.dry_run);
    assert_eq!(st.audit_logs.last().unwrap().result, "dry_run");
    st.execute_purge_task_at(id, 1_000_000);
    let task = ok(st.get_purge_task(id));
    assert_eq!(task.status, TaskStatus::Done);
    assert_eq!(task.done, 2);
    assert_eq!(st.resource_publishes.len(), 3);
    let early = st.run_delayed_cleanup_at(1_000_000 + 60_000_000_000);
    assert!(early.is_empty());
    let removed = st.run_delayed_cleanup_at(1_000_000 + 5 * 60_000_000_000);
    assert_eq!(removed.len(), 2);
    assert_eq!(st.resource_publishes.len(), 1);
    assert_eq!(st.resource_publishes[0].node_id, n2);
    assert_eq!(st.resource_stats.len(), 1);
    let q = PurgeTaskQuery { page: None, page_size: None, status: Some("done".to_string()), purge_type: Some("by_node".to_string()) };
    assert_eq!(ok(st.list_purge_tasks(&q)).total, 1);
    let bad = PurgeTaskQuery { page: None, page_size: None, status: None, purge_type: Some("by_size".to_string()) };
    assert_eq!(refusal(st.list_purge_tasks(&bad)).1, "Invalid purge type");
    assert_eq!(refusal(st.get_purge_task(id.wrapping_add(1))), (ErrorKind::NotFound, "Task not found".to_string()));
    assert_eq!(st.nodes.iter().filter(|n| n.status == NodeStatus::Online).count(), 2);
}

#[test]
fn purge_by_time_counts_stale_publications() {
    const DAY: i128 = 86_400_000_000_000;
    let now: i128 = 100 * DAY;
    let mut st = AppState::new();
    let n1 = add_node(&mut st, "n1", true);
    let n2 = add_node(&mut st, "n2", true);
    let a = add_resource(&mut st, "a.png", "image/png", 5);
    let b = add_resource(&mut st, "b.css", "text/css", 9);
    let c = add_resource(&mut st, "c.jpg", "image/jpeg", 7);
    let seen = [(a, n1, Some(10 * DAY)), (b, n1, None), (c, n1, Some(90 * DAY)), (a, n2, Some(10 * DAY))];
    for (r, n, last) in seen {
        st.resource_publishes.push(ResourcePublish { resource_id: r, node_id: n, published_at: 0 });
        st.resource_stats.push(StatEntry { resource_id: r, node_id: n, stats: ResourceStats { hit_count: 1, miss_count: 0, last_accessed_at: last } });
    }
    let req = purge_req("by_time", Some(vec![n1]), None, Some(30), None);
    let preview = ok(st.dry_run_purge_at(&req, now));
    assert_eq!(preview.total_resources, 2);
    assert_eq!(preview.total_size_bytes, 14);
    assert_eq!((preview.resources[0].resource_id, preview.resources[0].last_accessed), (b, None));
    assert_eq!((preview.resources[1].resource_id, preview.resources[1].last_accessed), (a, Some(10 * DAY)));
    let mut images = purge_req("by_time", Some(vec![n1]), None, Some(30), None);
    images.mime_types = Some(vec!["image/".to_string()]);
    let preview = ok(st.dry_run_purge_at(&images, now));
    assert_eq!(preview.total_resources, 1);
    assert_eq!(preview.resources[0].resource_id, a);
    let id = ok(st.create_purge_task_at(&req, 77, 78, now));
    assert_eq!(id, 77);
    let task = ok(st.get_purge_task(id));
    assert_eq!(task.purge_type, PurgeType::ByTime);
    assert_eq!(task.total, 1);
    assert_eq!(task.days_not_accessed, Some(30));
    assert_eq!(task.created_at, now);
    let log = st.audit_logs.last().unwrap();
    assert_eq!((log.id, log.scope.as_str(), log.result.as_str()), (78, "ByTime", "success"));
    st.execute_purge_task_at(id, now);
    let task = ok(st.get_purge_task(id));
    assert_eq!((task.status, task.total, task.done), (TaskStatus::Done, 2, 2));
    assert_eq!((task.started_at, task.finished_at), (Some(now), Some(now)));
    assert!(st.run_delayed_cleanup_at(now + 5 * 60_000_000_000 - 1).is_empty());
    let removed = st.run_delayed_cleanup_at(now + 5 * 60_000_000_000);
    assert_eq!(removed.len(), 2);
    let left: Vec<(u128, u128)> = st.resource_publishes.iter().map(|p| (p.resource_id, p.node_id)).collect();
    assert_eq!(left, vec![(c, n1), (a, n2)]);
    let left: Vec<(u128, u128)> = st.resource_stats.iter().map(|e| (e.resource_id, e.node_id)).collect();
    assert_eq!(left, vec![(c, n1), (a, n2)]);
}

#[test]
fn purge_preview_by_resource() {
    let mut st = AppState::new();
    let n1 = add_node(&mut st, "n1", true);
    let n2 = add_node(&mut st, "n2", true);
    let a = add_resource(&mut st, "a.png", "image/png", 5);
    let b = add_resource(&mut st, "b.css", "text/css", 9);
    for (r, n) in [(a, n1), (a, n2), (b, n2)] {
        st.resource_publishes.push(ResourcePublish { resource_id: r, node_id: n, published_at: 0 });
    }
    let ghost = b.wrapping_add(100);
    let req = purge_req("by_resource", None, Some(vec![ghost, a, b]), None, Some(true));
    let preview = ok(st.dry_run_purge(&req).unwrap());
    assert_eq!(preview.total_resources, 3);
    assert_eq!(preview.total_size_bytes, 19);
    assert_eq!((preview.resources[0].resource_id, preview.resources[0].node_id), (b, n2));
    assert_eq!((preview.resources[1].resource_id, preview.resources[1].node_name.as_str()), (a, "n1"));
    assert_eq!((preview.resources[2].resource_id, preview.resources[2].node_name.as_str()), (a, "n2"));
    assert!(preview.resources.iter().all(|i| i.last_accessed.is_none()));
    let mut styles = purge_req("by_resource", None, Some(vec![a, b]), None, None);
    styles.mime_types = Some(vec!["text/".to_string()]);
    let preview = ok(st.dry_run_purge(&styles).unwrap());
    assert_eq!(preview.total_resources, 1);
    assert_eq!(preview.resources[0].resource_name, "b.css");
    let bad = purge_req("by_size", None, None, None, None);
    assert_eq!(refusal(st.dry_run_purge(&bad).unwrap()), (ErrorKind::BadRequest, "Invalid purge type".to_string()));
    let id = ok(st.create_purge_task(&purge_req("by_resource", None, Some(vec![a]), None, None)).unwrap());
    assert_eq!(ok(st.get_purge_task(id)).total, 2);
    assert_eq!(st.audit_logs.last().unwrap().scope, "ByResource");
}
