use cdn_backend::store::{AppState, ApiError, StatEntry, RequestRecord};
use cdn_backend::models::{ResourceStats, ResourcePublish, Region};
use cdn_backend::nodes::CreateNodeRequest;
use cdn_backend::resources::CreateResourceRequest;
use cdn_backend::stats::{HitRateQuery, TrendQuery};
use cdn_backend::export::{build_report_records, write_csv, CsvFailure};

const DAY: i128 = 86_400_000_000_000;
const HOUR: i128 = 3_600_000_000_000;
const NOW: i128 = 10 * DAY + 12 * HOUR;

fn ok<T>(r: Result<T, ApiError>) -> T {
    match r {
        Ok(v) => v,
        Err(e) => panic!("refused: {}", e.message),
    }
}

fn setup() -> (AppState, u128, u128, u128, u128) {
    let mut st = AppState::new();
    let mut node = |st: &mut AppState, name: &str, region: &str| ok(st.create_node(&CreateNodeRequest {
        name: name.to_string(),
        region: region.to_string(),
        datacenter_address: "addr".to_string(),
        carrier: "电信".to_string(),
        capacity_gb: 1,
        operator: "ops".to_string(),
    }));
    let n1 = node(&mut st, "n1", "华北");
    let n2 = node(&mut st, "n2", "华东");
    let mut res = |st: &mut AppState, name: &str, size: u64| ok(st.create_resource(&CreateResourceRequest {
        original_filename: name.to_string(),
        storage_path: format!("/{}", name),
        mime_type: "image/png".to_string(),
        size_bytes: size,
        sha256: None,
        uploaded_by: "alice".to_string(),
        business_line: "games".to_string(),
        tags: vec![],
        version: None,
        version_group: None,
    }));
    let a = res(&mut st, "a.png", 1000);
    let b = res(&mut st, "b.png", 20);
    let entry = |r: u128, n: u128, h: u64, m: u64| StatEntry { resource_id: r, node_id: n, stats: ResourceStats { hit_count: h, miss_count: m, last_accessed_at: Some(5) } };
    st.resource_stats.push(entry(a, n1, 10, 2));
    st.resource_stats.push(entry(b, n1, 1, 3));
    st.resource_stats.push(entry(a, n2, 4, 0));
    st.resource_publishes.push(ResourcePublish { resource_id: a, node_id: n1, published_at: 0 });
    st.resource_publishes.push(ResourcePublish { resource_id: b, node_id: n1, published_at: 0 });
    st.request_history.push(RequestRecord { at: NOW - HOUR / 2, hit: true, node_id: Some(n1) });
    st.request_history.push(RequestRecord { at: NOW - 2 * HOUR, hit: false, node_id: Some(n1) });
    st.request_history.push(RequestRecord { at: NOW - 2 * DAY, hit: true, node_id: Some(n2) });
    st.request_history.push(RequestRecord { at: NOW - 10 * DAY, hit: true, node_id: None });
    (st, n1, n2, a, b)
}

#[test]
fn overview_figures() {
    let (st, _n1, _n2, _a, _b) = setup();
    let o = st.get_overview_at(NOW).unwrap();
    assert_eq!(o.total_resources, 2);
    assert_eq!(o.total_nodes, 2);
    assert_eq!(o.total_hits, 15);
    assert_eq!(o.total_misses, 5);
    assert_eq!(o.total_requests_today, 2);
    assert_eq!(o.total_hits_today, 1);
    assert_eq!(o.top_hot_resources, vec![("a.png".to_string(), 14), ("b.png".to_string(), 1)]);
    assert_eq!(o.top_cold_resources, vec![("b.png".to_string(), 1), ("a.png".to_string(), 14)]);
    assert_eq!(o.node_capacity_usage.len(), 2);
    assert_eq!(o.node_capacity_usage[0].name, "n1");
    assert_eq!(o.node_capacity_usage[0].used_bytes, 1020);
    assert_eq!(o.node_capacity_usage[1].used_bytes, 0);
    assert_eq!(o.active_preheat_tasks, 0);
    assert_eq!(o.active_purge_tasks, 0);
}

#[test]
fn overview_refuses_overflowing_totals() {
    let (mut st, n1, _n2, a, _b) = setup();
    st.resource_stats.push(StatEntry { resource_id: a, node_id: n1.wrapping_add(5), stats: ResourceStats { hit_count: u64::MAX, miss_count: 0, last_accessed_at: None } });
    assert!(st.get_overview_at(NOW).is_none());
}

fn entries(st: &AppState, group: &str, region: Option<&str>) -> Vec<(String, u64, u64)> {
    let q = HitRateQuery { group_by: group.to_string(), region: region.map(|r| r.to_string()), time_period: None };
    ok(st.get_hit_rate_at(&q, NOW).unwrap()).into_iter().map(|e| (e.key, e.hit_count, e.miss_count)).collect()
}

#[test]
fn hit_counts_by_group() {
    let (st, _n1, _n2, _a, _b) = setup();
    assert_eq!(entries(&st, "node", None), vec![("n1".to_string(), 11, 5), ("n2".to_string(), 4, 0)]);
    assert_eq!(entries(&st, "resource", None), vec![("a.png".to_string(), 14, 2), ("b.png".to_string(), 1, 3)]);
    assert_eq!(entries(&st, "node", Some("华东")), vec![("n2".to_string(), 4, 0)]);
    assert_eq!(entries(&st, "node", Some("月球")), vec![("n1".to_string(), 11, 5), ("n2".to_string(), 4, 0)]);
    assert_eq!(
        entries(&st, "time_period", None),
        vec![("近1小时".to_string(), 1, 0), ("近24小时".to_string(), 1, 1), ("近7天".to_string(), 2, 1)]
    );
    assert_eq!(
        entries(&st, "time_period", Some("华北")),
        vec![("近1小时".to_string(), 1, 0), ("近24小时".to_string(), 1, 1), ("近7天".to_string(), 1, 1)]
    );
    let q = HitRateQuery { group_by: "hour".to_string(), region: None, time_period: None };
    match st.get_hit_rate_at(&q, NOW).unwrap() {
        Err(e) => assert_eq!(e.message, "Invalid group_by"),
        Ok(_) => panic!("an unknown grouping was accepted"),
    }
}

#[test]
fn trend_points() {
    let (st, _n1, n2, _a, _b) = setup();
    let q = TrendQuery { days: Some(1), region: None, node_id: None };
    let hourly = st.get_trend_at(&q, NOW);
    assert_eq!(hourly.len(), 24);
    assert_eq!(hourly[0].timestamp, NOW - DAY);
    assert_eq!((hourly[23].requests, hourly[23].hits), (1, 1));
    assert_eq!((hourly[22].requests, hourly[22].hits), (1, 0));
    assert_eq!(hourly.iter().map(|p| p.requests).sum::<u64>(), 2);
    let q = TrendQuery { days: Some(3), region: None, node_id: None };
    let daily = st.get_trend_at(&q, NOW);
    assert_eq!(daily.len(), 3);
    assert_eq!(daily[1].timestamp, NOW - 2 * DAY);
    assert_eq!(daily.iter().map(|p| p.requests).collect::<Vec<_>>(), vec![0, 1, 2]);
    let q = TrendQuery { days: None, region: None, node_id: Some(n2) };
    let week = st.get_trend_at(&q, NOW);
    assert_eq!(week.len(), 7);
    assert_eq!(week.iter().map(|p| p.requests).sum::<u64>(), 1);
    let q = TrendQuery { days: Some(3), region: Some(Region::NorthChina.to_string().to_string()), node_id: None };
    assert_eq!(st.get_trend_at(&q, NOW).iter().map(|p| p.requests).sum::<u64>(), 2);
}

#[test]
fn report_figures_and_csv() {
    let (st, _n1, _n2, _a, _b) = setup();
    let rep = st.stats_report_at(2, NOW).unwrap();
    assert_eq!(rep.days.len(), 2);
    assert_eq!(rep.days[0].day_start, NOW - 2 * DAY);
    assert_eq!((rep.days[0].requests, rep.days[0].hits, rep.days[0].misses), (1, 1, 0));
    assert_eq!((rep.days[1].requests, rep.days[1].hits, rep.days[1].misses), (2, 1, 1));
    assert_eq!(rep.nodes.len(), 2);
    assert_eq!((rep.nodes[0].name.as_str(), rep.nodes[0].region.as_str(), rep.nodes[0].hits, rep.nodes[0].misses), ("n1", "华北", 11, 5));
    assert_eq!(rep.resources.len(), 2);
    assert_eq!(rep.resources[0].name, "a.png");
    assert_eq!(rep.resources[0].business_line, "games");
    let day_rates = vec!["100.00".to_string(), "50.00".to_string()];
    let node_rates = vec!["68.75".to_string(), "100.00".to_string()];
    let res_rates = vec!["87.50".to_string(), "25.00".to_string()];
    let records = build_report_records(&rep, &day_rates, &node_rates, &res_rates);
    assert_eq!(records[0], vec!["Date", "Requests", "Hits", "Misses", "Hit Rate (%)"]);
    assert_eq!(records[1], vec!["1970-01-09", "1", "1", "0", "100.00"]);
    assert_eq!(records[3], vec![""]);
    assert_eq!(records[4], vec!["Per-Node Hit Rate"]);
    assert_eq!(records[6], vec!["n1", "华北", "16", "11", "5", "68.75"]);
    assert_eq!(records.len(), 3 + 3 + 2 + 3 + 2);
    assert_eq!(write_csv(&records), Err(CsvFailure::UnequalLengths { row: 3 }));
}

#[test]
fn csv_of_even_records() {
    let rows = vec![vec!["a".to_string(), "b".to_string()], vec!["c,d".to_string(), "e".to_string()]];
    let bytes = write_csv(&rows).unwrap();
    assert_eq!(String::from_utf8(bytes).unwrap(), "a,b\n\"c,d\",e\n");
    let uneven = vec![vec!["a".to_string(), "b".to_string()], vec!["c".to_string()], vec!["d".to_string()]];
    assert_eq!(write_csv(&uneven), Err(CsvFailure::UnequalLengths { row: 1 }));
}

#[test]
fn windows_are_exact_to_the_nanosecond() {
    let mut st = AppState::new();
    let start = NOW - DAY;
    st.request_history.push(RequestRecord { at: start - 1, hit: true, node_id: None });
    st.request_history.push(RequestRecord { at: start, hit: false, node_id: None });
    st.request_history.push(RequestRecord { at: start + HOUR - 1, hit: true, node_id: None });
    st.request_history.push(RequestRecord { at: start + HOUR, hit: true, node_id: None });
    let q = TrendQuery { days: Some(1), region: None, node_id: None };
    let hourly = st.get_trend_at(&q, NOW);
    assert_eq!((hourly[0].requests, hourly[0].hits), (2, 1));
    assert_eq!((hourly[1].requests, hourly[1].hits), (1, 1));
    assert_eq!(hourly.iter().map(|p| p.requests).sum::<u64>(), 3);
}
