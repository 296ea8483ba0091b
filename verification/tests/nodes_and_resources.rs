use cdn_backend::store::{AppState, ApiError, ErrorKind, StatEntry};
use cdn_backend::models::{NodeStatus, Region, Carrier, ResourceStats, ResourcePublish};
use cdn_backend::nodes::{CreateNodeRequest, UpdateNodeRequest, UpdateNodeStatusRequest, NodeQuery};
use cdn_backend::resources::{
    CreateResourceRequest, UpdateResourceRequest, PublishRequest, ResourceQuery, prepare_upload,
};
use cdn_backend::audit::AuditLogQuery;

fn ok<T>(r: Result<T, ApiError>) -> T {
    match r {
        Ok(v) => v,
        Err(e) => panic!("refused: {}", e.message),
    }
}

fn refusal<T>(r: Result<T, ApiError>) -> (ErrorKind, String) {
    match r {
        Ok(_) => panic!("accepted"),
        Err(e) => (e.kind, e.message),
    }
}

fn node_req(name: &str, region: &str, carrier: &str) -> CreateNodeRequest {
    CreateNodeRequest {
        name: name.to_string(),
        region: region.to_string(),
        datacenter_address: "addr".to_string(),
        carrier: carrier.to_string(),
        capacity_gb: 100,
        operator: "ops".to_string(),
    }
}

fn resource_req(name: &str, path: &str, mime: &str, size: u64) -> CreateResourceRequest {
    CreateResourceRequest {
        original_filename: name.to_string(),
        storage_path: path.to_string(),
        mime_type: mime.to_string(),
        size_bytes: size,
        sha256: None,
        uploaded_by: "alice".to_string(),
        business_line: "games".to_string(),
        tags: vec!["banner".to_string()],
        version: None,
        version_group: None,
    }
}

#[test]
fn node_creation_checks_region_then_carrier() {
    let mut st = AppState::new();
    assert_eq!(refusal(st.create_node(&node_req("n", "火星", "电信"))), (ErrorKind::BadRequest, "Invalid region".to_string()));
    assert_eq!(refusal(st.create_node(&node_req("n", "华北", "卫星"))), (ErrorKind::BadRequest, "Invalid carrier".to_string()));
    assert!(st.nodes.is_empty());
    assert!(st.audit_logs.is_empty());
    let id = ok(st.create_node(&node_req("bj-1", "华北", "电信")));
    let n = ok(st.get_node(id));
    assert_eq!(n.node.name, "bj-1");
    assert_eq!(n.node.region, Region::NorthChina);
    assert_eq!(n.node.carrier, Carrier::Telecom);
    assert_eq!(n.node.status, NodeStatus::Offline);
    assert_eq!(n.node.used_gb, 0);
    assert_eq!(n.resource_count, 0);
    assert_eq!(st.audit_logs.len(), 1);
    assert_eq!(st.audit_logs[0].action, "create_node");
    assert_eq!(st.audit_logs[0].actor, "ops");
    assert_eq!(st.audit_logs[0].scope, "bj-1");
    let missing = refusal(st.get_node(id.wrapping_add(1)));
    assert_eq!(missing, (ErrorKind::NotFound, "Node not found".to_string()));
}

#[test]
fn node_update_keeps_changes_made_before_a_bad_carrier() {
    let mut st = AppState::new();
    let id = ok(st.create_node(&node_req("sh-1", "华东", "联通")));
    let req = UpdateNodeRequest {
        name: Some("sh-2".to_string()),
        datacenter_address: None,
        capacity_gb: Some(500),
        region: None,
        carrier: Some("卫星".to_string()),
    };
    assert_eq!(refusal(st.update_node(id, &req)), (ErrorKind::BadRequest, "Invalid carrier".to_string()));
    let n = ok(st.get_node(id));
    assert_eq!(n.node.name, "sh-2");
    assert_eq!(n.node.capacity_gb, 500);
    assert_eq!(n.node.carrier, Carrier::Unicom);
    let good = UpdateNodeRequest {
        name: None,
        datacenter_address: Some("new addr".to_string()),
        capacity_gb: None,
        region: Some("华南".to_string()),
        carrier: Some("移动".to_string()),
    };
    let updated = ok(st.update_node(id, &good));
    assert_eq!(updated.carrier, Carrier::Mobile);
    assert_eq!(updated.region, Region::SouthChina);
    assert_eq!(updated.datacenter_address, "new addr");
}

#[test]
fn node_status_changes() {
    let mut st = AppState::new();
    let id = ok(st.create_node(&node_req("gz-1", "华南", "多线")));
    let bad = UpdateNodeStatusRequest { status: "sleeping".to_string(), operator: "ops".to_string() };
    assert_eq!(refusal(st.update_node_status(id, &bad)), (ErrorKind::BadRequest, "Invalid status".to_string()));
    let good = UpdateNodeStatusRequest { status: "online".to_string(), operator: "ops".to_string() };
    assert!(ok(st.update_node_status(id, &good)));
    assert_eq!(ok(st.get_node(id)).node.status, NodeStatus::Online);
    assert_eq!(refusal(st.update_node_status(id.wrapping_add(1), &good)).0, ErrorKind::NotFound);
}

#[test]
fn node_listing_filters_and_pages() {
    let mut st = AppState::new();
    let a = ok(st.create_node(&node_req("a", "华北", "电信")));
    let _b = ok(st.create_node(&node_req("b", "华东", "电信")));
    let _c = ok(st.create_node(&node_req("c", "华北", "移动")));
    let q = NodeQuery { page: None, page_size: None, region: Some("华北".to_string()), status: None, carrier: None };
    let page = ok(st.list_nodes(&q));
    assert_eq!(page.total, 2);
    assert_eq!(page.page, 1);
    assert_eq!(page.page_size, 20);
    assert!(page.items.iter().all(|n| n.node.region == Region::NorthChina));
    let bad = NodeQuery { page: None, page_size: None, region: None, status: Some("busy".to_string()), carrier: None };
    assert_eq!(refusal(st.list_nodes(&bad)).1, "Invalid status");
    let small = NodeQuery { page: Some(2), page_size: Some(2), region: None, status: None, carrier: None };
    let p2 = ok(st.list_nodes(&small));
    assert_eq!(p2.total, 3);
    assert_eq!(p2.items.len(), 1);
    let capped = NodeQuery { page: None, page_size: Some(1000), region: None, status: None, carrier: None };
    assert_eq!(ok(st.list_nodes(&capped)).page_size, 100);
    assert!(ok(st.get_node(a)).node.name == "a");
}

#[test]
fn resource_creation_checks_in_order() {
    let mut st = AppState::new();
    assert_eq!(refusal(st.create_resource(&resource_req("a/b.png", "/x", "image/png", 1))).1, "Invalid filename");
    let mut many = resource_req("b.png", "/x", "image/png", 1);
    many.tags = (0..21).map(|i| format!("t{}", i)).collect();
    assert_eq!(refusal(st.create_resource(&many)).1, "Tags must be <= 20 items");
    assert_eq!(refusal(st.create_resource(&resource_req("b.html", "/x", "text/html", 1))).1, "MIME type not allowed");
    assert_eq!(refusal(st.create_resource(&resource_req("b.png", "/x", "image/png", 104857601))).1, "File too large");
    assert!(st.resources.is_empty());
    let id = ok(st.create_resource(&resource_req("b.png", "/img/../logo//b.png", "image/png", 10)));
    let r = &st.resources[0];
    assert_eq!(r.id, id);
    assert_eq!(r.storage_path, "img/logo/b.png");
    assert_eq!(r.version, "1.0.0");
    assert_eq!(r.sha256, "");
    assert!(r.md5.is_none());
    assert_ne!(r.version_group, 0);
    assert_eq!(st.audit_logs[0].action, "create_resource");
    assert_eq!(st.audit_logs[0].scope, "games");
}

#[test]
fn resource_update_keeps_tags_before_a_bad_name() {
    let mut st = AppState::new();
    let id = ok(st.create_resource(&resource_req("a.png", "/a.png", "image/png", 1)));
    let bad_tags = UpdateResourceRequest { tags: Some(vec!["".to_string()]), business_line: None, original_filename: None };
    assert_eq!(refusal(st.update_resource(id, &bad_tags)).1, "Invalid tags");
    let req = UpdateResourceRequest {
        tags: Some(vec!["new".to_string()]),
        business_line: Some("video".to_string()),
        original_filename: Some("../evil".to_string()),
    };
    assert_eq!(refusal(st.update_resource(id, &req)).1, "Invalid filename");
    assert_eq!(st.resources[0].tags, vec!["new".to_string()]);
    assert_eq!(st.resources[0].business_line, "video");
    assert_eq!(st.resources[0].original_filename, "a.png");
    let fine = UpdateResourceRequest { tags: None, business_line: None, original_filename: Some("b.png".to_string()) };
    let r = ok(st.update_resource(id, &fine));
    assert_eq!(r.original_filename, "b.png");
    assert_eq!(refusal(st.update_resource(id.wrapping_add(1), &fine)), (ErrorKind::NotFound, "Resource not found".to_string()));
}

#[test]
fn publishing_and_deleting() {
    let mut st = AppState::new();
    let n1 = ok(st.create_node(&node_req("n1", "华北", "电信")));
    let n2 = ok(st.create_node(&node_req("n2", "华北", "电信")));
    let rid = ok(st.create_resource(&resource_req("a.png", "/a.png", "image/png", 7)));
    let missing = n2.wrapping_add(1);
    let req = PublishRequest { node_ids: vec![n1, missing], operator: "ops".to_string() };
    let (kind, msg) = refusal(st.publish_resource(rid, &req));
    assert_eq!(kind, ErrorKind::BadRequest);
    assert!(msg.starts_with("Node ") && msg.ends_with(" not found"));
    assert!(msg.contains(&uuid::Uuid::from_u128(missing).to_string()));
    assert!(st.resource_publishes.is_empty());
    let req = PublishRequest { node_ids: vec![n1, n2, n1], operator: "ops".to_string() };
    assert!(ok(st.publish_resource(rid, &req)));
    assert_eq!(st.resource_publishes.len(), 2);
    let scope = st.audit_logs.last().unwrap().scope.clone();
    assert_eq!(
        scope,
        format!("nodes: [{}, {}, {}]", uuid::Uuid::from_u128(n1), uuid::Uuid::from_u128(n2), uuid::Uuid::from_u128(n1))
    );
    assert_eq!(ok(st.get_node(n1)).resource_count, 1);
    let entries = ok(st.list_node_resources(n1));
    assert_eq!(entries.len(), 1);
    assert_eq!(entries[0].resource.id, rid);
    assert!(st.unpublish_resource(rid, &PublishRequest { node_ids: vec![n2], operator: "ops".to_string() }));
    assert_eq!(st.resource_publishes.len(), 1);
    assert_eq!(st.resource_publishes[0].node_id, n1);
    assert!(ok(st.delete_node(n1)));
    assert!(st.resource_publishes.is_empty());
    assert_eq!(refusal(st.delete_node(n1)), (ErrorKind::NotFound, "Node not found".to_string()));
    st.resource_stats.push(StatEntry { resource_id: rid, node_id: n2, stats: ResourceStats { hit_count: 1, miss_count: 0, last_accessed_at: None } });
    assert!(ok(st.delete_resource(rid)));
    assert!(st.resources.is_empty());
    assert!(st.resource_stats.is_empty());
    assert_eq!(refusal(st.publish_resource(rid, &req)), (ErrorKind::NotFound, "Resource not found".to_string()));
}

#[test]
fn versions_newest_first() {
    let mut st = AppState::new();
    let first = ok(st.create_resource(&resource_req("a.png", "/a.png", "image/png", 1)));
    let group = st.resources[0].version_group;
    st.resources[0].uploaded_at = 10;
    let mut second = resource_req("a.png", "/a.png", "image/png", 2);
    second.version = Some("2.0.0".to_string());
    second.version_group = Some(group);
    let s = ok(st.create_resource(&second));
    st.resources[1].uploaded_at = 20;
    let _other = ok(st.create_resource(&resource_req("b.png", "/b.png", "image/png", 3)));
    let versions = ok(st.list_versions(first));
    assert_eq!(versions.len(), 2);
    assert_eq!(versions[0].id, s);
    assert_eq!(versions[0].version, "2.0.0");
    assert_eq!(versions[1].id, first);
}

#[test]
fn resource_listing_with_statistics() {
    let mut st = AppState::new();
    let n1 = ok(st.create_node(&node_req("n1", "华北", "电信")));
    let a = ok(st.create_resource(&resource_req("a.png", "/img/a.png", "image/png", 1)));
    let b = ok(st.create_resource(&resource_req("b.js", "/js/b.js", "application/javascript", 1)));
    st.resources[0].uploaded_at = 100;
    st.resources[1].uploaded_at = 200;
    st.resource_stats.push(StatEntry { resource_id: a, node_id: n1, stats: ResourceStats { hit_count: 3, miss_count: 1, last_accessed_at: Some(50) } });
    st.resource_stats.push(StatEntry { resource_id: a, node_id: n1.wrapping_add(9), stats: ResourceStats { hit_count: 2, miss_count: 0, last_accessed_at: Some(70) } });
    st.resource_publishes.push(ResourcePublish { resource_id: a, node_id: n1, published_at: 1 });
    let all = ResourceQuery { page: None, page_size: None, business_line: None, tag: None, search: None, mime_type: None, directory: None };
    let page = st.list_resources(&all).unwrap();
    assert_eq!(page.total, 2);
    assert_eq!(page.items[0].resource.id, b);
    assert_eq!(page.items[1].resource.id, a);
    assert_eq!(page.items[1].hit_count, 5);
    assert_eq!(page.items[1].miss_count, 1);
    assert_eq!(page.items[1].last_accessed_at, Some(70));
    assert_eq!(page.items[1].published_nodes, vec![n1]);
    let dir = ResourceQuery { directory: Some("img".to_string()), ..all };
    let p = st.list_resources(&dir).unwrap();
    assert_eq!(p.total, 1);
    assert_eq!(p.items[0].resource.id, a);
    let by_id = ResourceQuery {
        page: None, page_size: None, business_line: None, tag: None,
        search: Some(uuid::Uuid::from_u128(b).to_string()[..8].to_string()), mime_type: None, directory: None,
    };
    assert_eq!(st.list_resources(&by_id).unwrap().items[0].resource.id, b);
    let mime = ResourceQuery { page: None, page_size: None, business_line: None, tag: Some("banner".to_string()), search: None, mime_type: Some("image/".to_string()), directory: None };
    assert_eq!(st.list_resources(&mime).unwrap().total, 1);
    let got = st.get_resource(a).unwrap();
    assert_eq!(ok(got).hit_count, 5);
    assert!(matches!(st.get_resource(a.wrapping_add(1)), Some(Err(_))));
    st.resource_stats.push(StatEntry { resource_id: a, node_id: n1.wrapping_add(10), stats: ResourceStats { hit_count: u64::MAX, miss_count: 0, last_accessed_at: None } });
    assert!(st.get_resource(a).is_none());
}

#[test]
fn directory_tree_orders_directories_first() {
    let mut st = AppState::new();
    for (name, path) in [("b.png", "/img/b.png"), ("a.css", "/a.css"), ("c.png", "img/sub/c.png"), ("z.js", "/z.js"), ("dup.png", "/img/b.png")] {
        let mut req = resource_req(name, path, "image/png", 1);
        req.mime_type = "image/png".to_string();
        ok(st.create_resource(&req));
    }
    let tree = st.get_directory_tree();
    let root = &tree.entries[0];
    assert_eq!(root.name, "root");
    assert_eq!(root.path, "/");
    let names: Vec<(String, bool)> = root.children.iter().map(|&c| (tree.entries[c].name.clone(), tree.entries[c].is_dir)).collect();
    assert_eq!(names, vec![("img".to_string(), true), ("a.css".to_string(), false), ("z.js".to_string(), false)]);
    let img = &tree.entries[root.children[0]];
    assert_eq!(img.path, "/img");
    let inner: Vec<String> = img.children.iter().map(|&c| tree.entries[c].name.clone()).collect();
    assert_eq!(inner, vec!["sub".to_string(), "b.png".to_string()]);
    let b = &tree.entries[img.children[1]];
    assert_eq!(b.path, "/img/b.png");
    assert_eq!(b.resource_id, Some(st.resources[0].id));
    for (i, e) in tree.entries.iter().enumerate() {
        assert!(e.children.iter().all(|&c| c > i && c < tree.entries.len()));
    }
}

#[test]
fn uploads_are_checked_and_stored() {
    let e = prepare_upload(Some("evil/../x.png"), &vec![1, 2, 3]);
    assert_eq!(refusal(e).1, "Invalid filename");
    let e = prepare_upload(Some("page.html"), &vec![1]);
    assert_eq!(refusal(e).1, "MIME type not allowed: text/html");
    let e = prepare_upload(None, &vec![1]);
    assert_eq!(refusal(e).1, "MIME type not allowed: application/octet-stream");
    let big = vec![0u8; 104857601];
    assert_eq!(refusal(prepare_upload(Some("big.png"), &big)).1, "File exceeds maximum size of 100MB");
    let f = ok(prepare_upload(Some("abc.txt"), &b"abc".to_vec()));
    assert_eq!(f.filename, "abc.txt");
    assert_eq!(f.mime_type, "text/plain");
    assert_eq!(f.size_bytes, 3);
    assert_eq!(f.sha256, "ba7816bf8f01cfea414140de5dae2223b00361a396177a9cb410ff61f20015ad");
    let mut st = AppState::new();
    let ids = st.store_uploads(&vec![f]);
    assert_eq!(ids.len(), 1);
    let r = &st.resources[0];
    assert_eq!(r.id, ids[0]);
    assert_eq!(r.storage_path, "/abc.txt");
    assert_eq!(r.uploaded_by, "uploader");
    assert_eq!(r.business_line, "default");
    assert_eq!(r.version, "1.0.0");
    assert_eq!(st.audit_logs.len(), 1);
    assert_eq!(st.audit_logs[0].action, "upload_resource");
    assert_eq!(st.audit_logs[0].target, uuid::Uuid::from_u128(ids[0]).to_string());
}

#[test]
fn audit_listing_filters_newest_first() {
    let mut st = AppState::new();
    st.log_audit("alice", "create_node", "t1", "s", "success");
    st.log_audit("bob", "delete_node", "t2", "s", "success");
    st.log_audit("alice", "delete_resource", "t3", "s", "success");
    st.audit_logs[0].timestamp = 1;
    st.audit_logs[1].timestamp = 3;
    st.audit_logs[2].timestamp = 2;
    let q = AuditLogQuery { page: None, page_size: None, action: Some("delete".to_string()), actor: None };
    let p = st.list_audit_logs(&q);
    assert_eq!(p.total, 2);
    assert_eq!(p.page_size, 50);
    assert_eq!(p.items[0].target, "t2");
    assert_eq!(p.items[1].target, "t3");
    let q = AuditLogQuery { page: None, page_size: Some(500), action: None, actor: Some("ali".to_string()) };
    let p = st.list_audit_logs(&q);
    assert_eq!(p.total, 2);
    assert_eq!(p.page_size, 200);
    assert!(st.cleanup_old_logs());
    assert!(st.audit_logs.is_empty());
}

#[test]
fn unpublishing_undoes_publishing() {
    let mut st = AppState::new();
    let n1 = ok(st.create_node(&node_req("n1", "华北", "电信")));
    let n2 = ok(st.create_node(&node_req("n2", "华南", "移动")));
    let n3 = ok(st.create_node(&node_req("n3", "华中", "联通")));
    let a = ok(st.create_resource(&resource_req("a.png", "/a.png", "image/png", 1)));
    let b = ok(st.create_resource(&resource_req("b.png", "/b.png", "image/png", 1)));
    st.resource_publishes.push(ResourcePublish { resource_id: b, node_id: n1, published_at: 7 });
    st.resource_publishes.push(ResourcePublish { resource_id: a, node_id: n3, published_at: 8 });
    let req = PublishRequest { node_ids: vec![n1, n2], operator: "ops".to_string() };
    assert!(ok(st.publish_resource(a, &req)));
    assert_eq!(st.resource_publishes.len(), 4);
    assert!(st.unpublish_resource(a, &req));
    let left: Vec<(u128, u128, i128)> = st.resource_publishes.iter().map(|p| (p.resource_id, p.node_id, p.published_at)).collect();
    assert_eq!(left, vec![(b, n1, 7), (a, n3, 8)]);
    let log = st.audit_logs.last().unwrap();
    assert_eq!(log.action, "unpublish_resource");
    assert_eq!(log.scope, format!("nodes: [{}, {}]", uuid::Uuid::from_u128(n1), uuid::Uuid::from_u128(n2)));
}
