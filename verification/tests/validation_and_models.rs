use cdn_backend::validation::{
    is_valid_uuid, is_valid_filename, is_valid_mime, is_valid_tags, is_valid_file_size, sanitize_path,
    MAX_FILE_SIZE, MAX_TAGS,
};
use cdn_backend::models::{Region, Carrier, ApiResponse, ResourceStats, TaskPriority, parse_priority};
use cdn_backend::auth::{get_user_from_headers, has_access, parse_role, AuthMiddleware};
use cdn_backend::models::UserRole;
use cdn_backend::store::ErrorKind;

#[test]
fn uuid_shapes() {
    assert!(is_valid_uuid("550e8400-e29b-41d4-a716-446655440000"));
    assert!(!is_valid_uuid("550E8400-E29B-41D4-A716-446655440000"));
    assert!(!is_valid_uuid("550e8400e29b41d4a716446655440000"));
    assert!(!is_valid_uuid("550e8400-e29b-41d4-a716-4466554400000"));
    assert!(!is_valid_uuid("550e8400-e29b-41d4-a716-446655440000\n"));
    assert!(!is_valid_uuid(""));
    assert!(!is_valid_uuid("g50e8400-e29b-41d4-a716-446655440000"));
}

#[test]
fn filenames() {
    assert!(is_valid_filename("logo.png"));
    assert!(is_valid_filename(".hidden"));
    assert!(!is_valid_filename(""));
    assert!(!is_valid_filename("a..b"));
    assert!(!is_valid_filename("dir/file"));
    assert!(!is_valid_filename("dir\\file"));
}

#[test]
fn mime_prefixes() {
    assert!(is_valid_mime("image/png"));
    assert!(is_valid_mime("video/mp4"));
    assert!(is_valid_mime("audio/mpeg"));
    assert!(is_valid_mime("application/json; charset=utf-8"));
    assert!(is_valid_mime("text/plain"));
    assert!(!is_valid_mime("text/html"));
    assert!(!is_valid_mime("application/octet-stream"));
    assert!(!is_valid_mime("image"));
}

#[test]
fn tag_limits() {
    let twenty: Vec<String> = (0..MAX_TAGS).map(|i| format!("t{}", i)).collect();
    assert!(is_valid_tags(&twenty));
    let mut many = twenty.clone();
    many.push("one more".to_string());
    assert!(!is_valid_tags(&many));
    assert!(is_valid_tags(&[]));
    assert!(!is_valid_tags(&["".to_string()]));
    assert!(is_valid_tags(&["a".repeat(50)]));
    assert!(!is_valid_tags(&["a".repeat(51)]));
    // 25 two-byte characters are 50 bytes; 26 are 52.
    assert!(is_valid_tags(&["é".repeat(25)]));
    assert!(!is_valid_tags(&["é".repeat(26)]));
}

#[test]
fn file_sizes() {
    assert_eq!(MAX_FILE_SIZE, 100 * 1024 * 1024);
    assert!(is_valid_file_size(0));
    assert!(is_valid_file_size(MAX_FILE_SIZE));
    assert!(!is_valid_file_size(MAX_FILE_SIZE + 1));
}

#[test]
fn sanitized_paths() {
    assert_eq!(sanitize_path("/a/../b//c/"), "a/b/c");
    assert_eq!(sanitize_path(""), "");
    assert_eq!(sanitize_path("/"), "");
    assert_eq!(sanitize_path("../../etc/passwd"), "etc/passwd");
    assert_eq!(sanitize_path("a/./b"), "a/./b");
    assert_eq!(sanitize_path("a/...b/c"), "a/...b/c");
}

#[test]
fn sanitizing_twice_changes_nothing() {
    for p in ["/a/../b//c/", "", "..", "x//y/../z", "/img/2024/../logo.png"] {
        let once = sanitize_path(p);
        assert_eq!(sanitize_path(&once), once);
        assert!(!once.split('/').any(|s| s == ".."));
        assert!(once.is_empty() || !once.split('/').any(|s| s.is_empty()));
    }
}

#[test]
fn region_names_round_trip() {
    let all = [
        Region::NorthChina,
        Region::EastChina,
        Region::SouthChina,
        Region::CentralChina,
        Region::Southwest,
        Region::Northwest,
        Region::Northeast,
    ];
    for r in all {
        assert_eq!(Region::from_str(r.to_string()), Some(r));
    }
    assert_eq!(Region::NorthChina.to_string(), "华北");
    assert_eq!(Region::Northeast.to_string(), "东北");
    assert_eq!(Region::from_str("火星"), None);
}

#[test]
fn carrier_names() {
    assert_eq!(Carrier::Telecom.to_string(), "电信");
    assert_eq!(Carrier::Unicom.to_string(), "联通");
    assert_eq!(Carrier::Mobile.to_string(), "移动");
    assert_eq!(Carrier::MultiLine.to_string(), "多线");
}

#[test]
fn api_envelopes() {
    let ok = ApiResponse::ok(5u64);
    assert!(ok.success);
    assert_eq!(ok.data, Some(5));
    assert!(ok.message.is_none());
    let err: ApiResponse<u64> = ApiResponse::error("Task not found");
    assert!(!err.success);
    assert!(err.data.is_none());
    assert_eq!(err.message.as_deref(), Some("Task not found"));
}

#[test]
fn empty_statistics() {
    let s = ResourceStats::default();
    assert_eq!(s.hit_count, 0);
    assert_eq!(s.miss_count, 0);
    assert!(s.last_accessed_at.is_none());
}

#[test]
fn priorities_by_name() {
    assert_eq!(parse_priority(Some("high")), TaskPriority::High);
    assert_eq!(parse_priority(Some("low")), TaskPriority::Low);
    assert_eq!(parse_priority(Some("medium")), TaskPriority::Medium);
    assert_eq!(parse_priority(Some("urgent")), TaskPriority::Medium);
    assert_eq!(parse_priority(None), TaskPriority::Medium);
}

#[test]
fn roles_and_access() {
    assert_eq!(parse_role("super_admin"), Some(UserRole::SuperAdmin));
    assert_eq!(parse_role("node_admin"), Some(UserRole::NodeAdmin));
    assert_eq!(parse_role("business_line_admin"), Some(UserRole::BusinessLineAdmin));
    assert_eq!(parse_role("admin"), None);
    let roles = [UserRole::BusinessLineAdmin, UserRole::NodeAdmin, UserRole::SuperAdmin];
    for (i, req) in roles.iter().enumerate() {
        for (j, role) in roles.iter().enumerate() {
            assert_eq!(has_access(*req, *role), j >= i);
        }
    }
}

#[test]
fn user_from_headers() {
    let u = get_user_from_headers(Some("550e8400-e29b-41d4-a716-446655440000"), Some("node_admin"), None).unwrap();
    assert_eq!(u.id, 0x550e8400_e29b_41d4_a716_446655440000u128);
    assert_eq!(u.name, "anonymous");
    assert_eq!(u.role, UserRole::NodeAdmin);
    assert!(u.managed_nodes.is_empty());
    assert!(u.managed_business_lines.is_empty());
    let v = get_user_from_headers(Some("not-a-uuid"), Some("super_admin"), Some("alice")).unwrap();
    assert_eq!(v.id, 0);
    assert_eq!(v.name, "alice");
    assert!(get_user_from_headers(Some("x"), Some("root"), None).is_none());
    assert!(get_user_from_headers(None, Some("super_admin"), None).is_none());
    assert!(get_user_from_headers(Some("x"), None, None).is_none());
}

#[test]
fn guard_decisions() {
    let guard = AuthMiddleware::new(Some(UserRole::NodeAdmin)).new_transform(7u8);
    assert_eq!(*guard.service(), 7u8);
    match guard.authorize(Some("x"), Some("business_line_admin"), Some("bob")) {
        Err(e) => {
            assert_eq!(e.kind, ErrorKind::Forbidden);
            assert_eq!(e.message, "Insufficient permissions");
        },
        Ok(_) => panic!("a business-line administrator passed a node guard"),
    }
    match guard.authorize(Some("x"), Some("root"), None) {
        Err(e) => {
            assert_eq!(e.kind, ErrorKind::Unauthorized);
            assert_eq!(e.message, "Invalid role");
        },
        Ok(_) => panic!("an unknown role passed"),
    }
    match guard.authorize(Some("550e8400-e29b-41d4-a716-446655440000"), Some("super_admin"), Some("bob")) {
        Ok(Some(u)) => {
            assert_eq!(u.name, "bob");
            assert_eq!(u.role, UserRole::SuperAdmin);
            assert_eq!(u.id, 0x550e8400_e29b_41d4_a716_446655440000u128);
        },
        _ => panic!("a super administrator was stopped"),
    }
    assert!(matches!(guard.authorize(None, Some("super_admin"), None), Ok(None)));
    let open = AuthMiddleware::new(None).new_transform(());
    assert!(matches!(open.authorize(Some("x"), Some("business_line_admin"), None), Ok(Some(_))));
}
