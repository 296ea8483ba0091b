//! Statistics: requests per hour or day, hit counts grouped by node,
//! resource or period, the dashboard overview, and the CSV report.
use vstd::prelude::*;
use crate::models::{region_label, texts, Region, TrendPoint, HitRateEntry, NodeUsage, OverviewStats, Node, PreheatTask, PurgeTask, TaskStatus, ResourcePublish, region_named};
use crate::sorting::{desc_order, is_desc_order, arrange};
use crate::clock::{day_start, day_start_of};
use crate::store::{
    AppState, RequestRecord, StatEntry, ApiError, ErrorKind, refuse, refused, has_node, node_with, has_resource,
    resource_with, lemma_filter_map_step,
};
use crate::ids::{uuid_text, id_text};
use crate::text::{str_equal, owned};
use crate::clock::{DAY_NANOS, HOUR_NANOS, MIN_INSTANT, MAX_INSTANT, representable, now_nanos};

verus! {

/// A query of the request trend.
pub struct TrendQuery {
    pub days: Option<u32>,
    pub region: Option<String>,
    pub node_id: Option<u128>,
}

/// A query of the CSV report.
pub struct ExportQuery {
    pub days: Option<u32>,
}

/// The region a query names, where it names a known one.
pub open spec fn region_filter(s: Option<Seq<char>>) -> Option<Region> {
    match s { Some(t) => region_named(t), None => None }
}

/// A request counts for a trend with the given node and region filters: it
/// was served by the node asked for, if one is, and it was not served by a
/// known node of another region than the one asked for, if one is (requests
/// of no node or of an unknown node count for every region).
pub open spec fn record_counted(st: AppState, rec: RequestRecord, node: Option<u128>, region: Option<Region>) -> bool {
    &&& (node matches Some(n) ==> rec.node_id == Some(n))
    &&& (region matches Some(g) ==> !(rec.node_id matches Some(nid) && has_node(st.nodes@, nid)
        && node_with(st.nodes@, nid).region != g))
}

/// The requests counted in `[lo, hi)` with the given filters, hits only if `hits`.
pub open spec fn window_records(
    st: AppState,
    lo: int,
    hi: int,
    node: Option<u128>,
    region: Option<Region>,
    hits: bool,
) -> Seq<RequestRecord> {
    st.request_history@.filter(window_pred(st, lo, hi, node, region, hits))
}

/// The request was made in `[lo, hi)`, counts with the given filters, and is
/// a hit if `hits`.
pub open spec fn window_pred(
    st: AppState,
    lo: int,
    hi: int,
    node: Option<u128>,
    region: Option<Region>,
    hits: bool,
) -> spec_fn(RequestRecord) -> bool {
    |r: RequestRecord| lo <= r.at < hi && record_counted(st, r, node, region) && (!hits || r.hit)
}

/// The point of the trend for the window `[lo, lo + step)`.
pub open spec fn trend_point(st: AppState, lo: int, step: int, node: Option<u128>, region: Option<Region>) -> TrendPoint {
    TrendPoint {
        timestamp: lo as i128,
        requests: window_records(st, lo, lo + step, node, region, false).len() as u64,
        hits: window_records(st, lo, lo + step, node, region, true).len() as u64,
    }
}

/// The trend over the `days` days before `now`: one point per hour when
/// `days` is at most two, one per day otherwise, oldest first.
pub open spec fn trend_points(st: AppState, days: u32, now: int, node: Option<u128>, region: Option<Region>) -> Seq<TrendPoint> {
    let start = now - days * DAY_NANOS;
    let step: int = if days <= 2 { HOUR_NANOS as int } else { DAY_NANOS as int };
    let n: nat = if days <= 2 { (days * 24) as nat } else { days as nat };
    Seq::new(n, |k: int| trend_point(st, start + k * step, step, node, region))
}

/// The instant `days` days before `now` can be represented, as the trend and
/// the report need.
pub open spec fn window_representable(days: u32, now: int) -> bool {
    representable(now) && representable(now - days * DAY_NANOS)
}

/// The trend of the last `days` days has one point per hour when it covers at
/// most two days, one per day otherwise: for `days <= 2`, `days * 24` points
/// an hour apart, else `days` points a day apart, the first at `days` days
/// before `now`.
pub proof fn trend_shape(st: AppState, days: u32, now: int, node: Option<u128>, region: Option<Region>)
    ensures
        ({
            let v = trend_points(st, days, now, node, region);
            let start = now - days * 86_400_000_000_000;
            &&& days <= 2 ==> v.len() == days * 24
                && forall|k: int| 0 <= k < v.len() ==> #[trigger] v[k].timestamp == (start + k * 3_600_000_000_000) as i128
            &&& days > 2 ==> v.len() == days
                && forall|k: int| 0 <= k < v.len() ==> #[trigger] v[k].timestamp == (start + k * 86_400_000_000_000) as i128
        }),
{
}

impl AppState {
    /// The number of requests in `[lo, hi)` counted with the given filters,
    /// hits only if `hits`.
    pub fn count_window(&self, lo: i128, hi: i128, node: Option<u128>, region: Option<Region>, hits: bool) -> (n: u64)
        requires
            self.wf(),
        ensures
            n == window_records(*self, lo as int, hi as int, node, region, hits).len(),
    {
        let ghost hs = self.request_history@;
        let ghost p = window_pred(*self, lo as int, hi as int, node, region, hits);
        let mut n: u64 = 0;
        let mut i: usize = 0;
        while i < self.request_history.len()
            invariant
                self.wf(),
                hs == self.request_history@,
                p == window_pred(*self, lo as int, hi as int, node, region, hits),
                0 <= i <= hs.len(),
                n == hs.take(i as int).filter(p).len(),
                n <= i,
            decreases hs.len() - i,
        {
            proof { crate::store::lemma_filter_map_step(hs, i as int, p, |r: RequestRecord| r); }
            let r = self.request_history[i];
            let mut counted = lo <= r.at && r.at < hi && (!hits || r.hit);
            if counted {
                if let Some(want) = node {
                    if r.node_id != Some(want) {
                        counted = false;
                    }
                }
            }
            if counted {
                if let Some(g) = region {
                    if let Some(nid) = r.node_id {
                        if let Some(pos) = self.node_pos(nid) {
                            proof { self.lemma_node_at(pos as int); }
                            if self.nodes[pos].region != g {
                                counted = false;
                            }
                        }
                    }
                }
            }
            assert(counted == p(r));
            if counted {
                n = n + 1;
            }
            i += 1;
        }
        assert(hs.take(hs.len() as int) =~= hs);
        n
    }
}

/// The number of days a query asks for (seven when it names none).
pub open spec fn query_days(d: Option<u32>) -> u32 {
    match d { Some(v) => v, None => 7 }
}

/// Whether the instant `days` days before `now` can be represented.
pub fn window_fits(days: u32, now: i128) -> (r: bool)
    ensures
        r == window_representable(days, now as int),
{
    let d: i128 = days as i128;
    assert(d * 86_400_000_000_000 <= 4294967295 * 86_400_000_000_000) by (nonlinear_arith)
        requires 0 <= d <= 4294967295;
    if now < MIN_INSTANT || now > MAX_INSTANT {
        return false;
    }
    let start: i128 = now - d * DAY_NANOS;
    MIN_INSTANT <= start && start <= MAX_INSTANT
}

impl AppState {
    /// The trend over the `days` days before `now` (see `trend_points`).
    pub fn trend_at(&self, days: u32, now: i128, node: Option<u128>, region: Option<Region>) -> (v: Vec<TrendPoint>)
        requires
            self.wf(),
            window_representable(days, now as int),
        ensures
            v@ == trend_points(*self, days, now as int, node, region),
    {
        let d: i128 = days as i128;
        assert(d * 86_400_000_000_000 <= 4294967295 * 86_400_000_000_000) by (nonlinear_arith)
            requires 0 <= d <= 4294967295;
        let start: i128 = now - d * DAY_NANOS;
        let hourly = days <= 2;
        let step: i128 = if hourly { HOUR_NANOS } else { DAY_NANOS };
        let n: u64 = if hourly { (days * 24) as u64 } else { days as u64 };
        let ghost points = trend_points(*self, days, now as int, node, region);
        let mut v: Vec<TrendPoint> = Vec::new();
        let mut k: u64 = 0;
        while k < n
            invariant
                self.wf(),
                window_representable(days, now as int),
                d == days as i128,
                start == now - days * DAY_NANOS,
                step == (if days <= 2 { HOUR_NANOS as int } else { DAY_NANOS as int }),
                n == (if days <= 2 { (days * 24) as nat } else { days as nat }),
                points == trend_points(*self, days, now as int, node, region),
                0 <= k <= n,
                v@ == points.take(k as int),
            decreases n - k,
        {
            let kk: i128 = k as i128;
            assert(kk * step + step <= d * 86_400_000_000_000) by (nonlinear_arith)
                requires
                    0 <= kk < n,
                    d == days,
                    step == (if days <= 2 { 3_600_000_000_000int } else { 86_400_000_000_000int }),
                    n == (if days <= 2 { days * 24 } else { days as int });
            assert(kk * step >= 0) by (nonlinear_arith)
                requires 0 <= kk, 0 < step;
            let lo: i128 = start + kk * step;
            let hi: i128 = lo + step;
            let requests = self.count_window(lo, hi, node, region, false);
            let hits = self.count_window(lo, hi, node, region, true);
            let p = TrendPoint { timestamp: lo, requests, hits };
            assert(p == trend_point(*self, start + k * step, step as int, node, region));
            v.push(p);
            assert(v@ =~= points.take(k + 1));
            k += 1;
        }
        assert(v@ =~= points);
        v
    }

    /// The request trend a query asks for, over `query_days` days before
    /// `now`, for the node and the known region it names.
    pub fn get_trend_at(&self, query: &TrendQuery, now: i128) -> (v: Vec<TrendPoint>)
        requires
            self.wf(),
            window_representable(query_days(query.days), now as int),
        ensures
            v@ == trend_points(*self, query_days(query.days), now as int, query.node_id,
                region_filter(crate::audit::opt_view(query.region))),
    {
        let days = match query.days { Some(d) => d, None => 7 };
        let region = match &query.region { Some(r) => Region::from_str(r.as_str()), None => None };
        self.trend_at(days, now, query.node_id, region)
    }

    /// The request trend a query asks for, now: for the instant read from the
    /// clock (one chrono represents), `None` exactly where the start of the
    /// window is not an instant chrono can represent.
    pub fn get_trend(&self, query: &TrendQuery) -> (r: Option<Vec<TrendPoint>>)
        requires
            self.wf(),
        ensures
            exists|now: i128| #![trigger window_representable(query_days(query.days), now as int)]
                representable(now as int) && match r {
                Some(v) => window_representable(query_days(query.days), now as int)
                    && v@ == trend_points(*self, query_days(query.days), now as int, query.node_id,
                        region_filter(crate::audit::opt_view(query.region))),
                None => !window_representable(query_days(query.days), now as int),
            },
    {
        let now = now_nanos();
        let days = match query.days { Some(d) => d, None => 7 };
        assert(days == query_days(query.days));
        if !window_fits(days, now) {
            assert(!window_representable(query_days(query.days), now as int));
            return None;
        }
        let v = self.get_trend_at(query, now);
        assert(window_representable(query_days(query.days), now as int));
        Some(v)
    }
}

/// The key an entry is grouped under: its node (`by_node`) or its resource.
pub open spec fn stat_key(e: StatEntry, by_node: bool) -> u128 {
    if by_node { e.node_id } else { e.resource_id }
}

/// The keys of the entries, each once, in the order they first occur.
pub open spec fn group_keys(s: Seq<StatEntry>, by_node: bool) -> Seq<u128>
    decreases s.len(),
{
    if s.len() == 0 {
        Seq::empty()
    } else {
        let prev = group_keys(s.drop_last(), by_node);
        let k = stat_key(s.last(), by_node);
        if prev.contains(k) { prev } else { prev.push(k) }
    }
}

/// The hits (`hits`) or misses (otherwise) of the entries with key `k`.
pub open spec fn group_sum(s: Seq<StatEntry>, k: u128, by_node: bool, hits: bool) -> nat
    decreases s.len(),
{
    if s.len() == 0 {
        0
    } else {
        group_sum(s.drop_last(), k, by_node, hits) + if stat_key(s.last(), by_node) == k {
            if hits { s.last().stats.hit_count as nat } else { s.last().stats.miss_count as nat }
        } else {
            0nat
        }
    }
}

/// The hits (`hits`) or misses (otherwise) of all the entries.
pub open spec fn total_sum(s: Seq<StatEntry>, hits: bool) -> nat
    decreases s.len(),
{
    if s.len() == 0 {
        0
    } else {
        total_sum(s.drop_last(), hits) + if hits { s.last().stats.hit_count as nat } else { s.last().stats.miss_count as nat }
    }
}

/// The sum over a prefix of the entries is at most the sum over all of them.
pub proof fn lemma_group_sum_prefix(s: Seq<StatEntry>, k: u128, by_node: bool, hits: bool, i: int)
    requires
        0 <= i <= s.len(),
    ensures
        group_sum(s.take(i), k, by_node, hits) <= group_sum(s, k, by_node, hits),
    decreases s.len(),
{
    if i < s.len() {
        assert(s.drop_last().take(i) =~= s.take(i));
        lemma_group_sum_prefix(s.drop_last(), k, by_node, hits, i);
    } else {
        assert(s.take(i) =~= s);
    }
}

/// The sum over one group is at most the sum over all the entries.
pub proof fn lemma_group_within_total(s: Seq<StatEntry>, k: u128, by_node: bool, hits: bool)
    ensures
        group_sum(s, k, by_node, hits) <= total_sum(s, hits),
    decreases s.len(),
{
    if s.len() > 0 {
        lemma_group_within_total(s.drop_last(), k, by_node, hits);
    }
}

/// The hits and misses of every group fit, added up, in `u64`.
pub open spec fn groups_fit(s: Seq<StatEntry>, by_node: bool) -> bool {
    forall|j: int| 0 <= j < group_keys(s, by_node).len() ==>
        group_sum(s, #[trigger] group_keys(s, by_node)[j], by_node, true)
            + group_sum(s, group_keys(s, by_node)[j], by_node, false) <= u64::MAX
}

/// The hits and the misses of every group, each, fit in `u64`.
pub open spec fn sums_fit(s: Seq<StatEntry>, by_node: bool) -> bool {
    forall|j: int| 0 <= j < group_keys(s, by_node).len() ==>
        group_sum(s, #[trigger] group_keys(s, by_node)[j], by_node, true) <= u64::MAX
            && group_sum(s, group_keys(s, by_node)[j], by_node, false) <= u64::MAX
}

/// The hits and misses of one group.
#[derive(Clone, Copy, Debug)]
pub struct GroupTotal {
    pub key: u128,
    pub hits: u64,
    pub misses: u64,
}

/// The group totals of the entries, in the order their keys first occur.
pub open spec fn group_totals_of(s: Seq<StatEntry>, by_node: bool) -> Seq<GroupTotal> {
    group_keys(s, by_node).map_values(|k: u128| GroupTotal {
        key: k,
        hits: group_sum(s, k, by_node, true) as u64,
        misses: group_sum(s, k, by_node, false) as u64,
    })
}

/// A key already among the keys of a prefix.
proof fn lemma_keys_step(s: Seq<StatEntry>, by_node: bool, i: int)
    requires
        0 <= i < s.len(),
    ensures
        group_keys(s.take(i + 1), by_node) == (if group_keys(s.take(i), by_node).contains(stat_key(s[i], by_node)) {
            group_keys(s.take(i), by_node)
        } else {
            group_keys(s.take(i), by_node).push(stat_key(s[i], by_node))
        }),
        forall|k: u128| #[trigger] group_sum(s.take(i + 1), k, by_node, true) == group_sum(s.take(i), k, by_node, true)
            + if stat_key(s[i], by_node) == k { s[i].stats.hit_count as nat } else { 0nat },
        forall|k: u128| #[trigger] group_sum(s.take(i + 1), k, by_node, false) == group_sum(s.take(i), k, by_node, false)
            + if stat_key(s[i], by_node) == k { s[i].stats.miss_count as nat } else { 0nat },
{
    assert(s.take(i + 1).drop_last() =~= s.take(i));
    assert(s.take(i + 1).last() == s[i]);
}

/// The keys of the groups are distinct.
proof fn lemma_keys_distinct(s: Seq<StatEntry>, by_node: bool)
    ensures
        crate::store::distinct(group_keys(s, by_node)),
    decreases s.len(),
{
    if s.len() > 0 {
        lemma_keys_distinct(s.drop_last(), by_node);
        let prev = group_keys(s.drop_last(), by_node);
        let k = stat_key(s.last(), by_node);
        if !prev.contains(k) {
            assert forall|a: int, b: int| 0 <= a < b < prev.push(k).len() implies prev.push(k)[a] != prev.push(k)[b] by {
                if b == prev.len() {
                    assert(prev.contains(prev[a]));
                }
            }
        }
    }
}

/// Totals the hits and misses of the entries per key, in the order the keys
/// first occur; `None` when the hits and misses of some group add up to more
/// than `u64` holds.
pub fn group_totals(entries: &Vec<StatEntry>, by_node: bool) -> (r: Option<Vec<GroupTotal>>)
    ensures
        match r {
            Some(v) => groups_fit(entries@, by_node) && v@ == group_totals_of(entries@, by_node),
            None => !groups_fit(entries@, by_node),
        },
{
    let ghost s = entries@;
    let mut gs: Vec<GroupTotal> = Vec::new();
    let mut i: usize = 0;
    while i < entries.len()
        invariant
            s == entries@,
            0 <= i <= s.len(),
            gs@ == group_totals_of(s.take(i as int), by_node),
            sums_fit(s.take(i as int), by_node),
        decreases s.len() - i,
    {
        let e = entries[i];
        let k = if by_node { e.node_id } else { e.resource_id };
        proof { lemma_keys_step(s, by_node, i as int); }
        let ghost keys = group_keys(s.take(i as int), by_node);
        let mut j: usize = 0;
        assert(gs@.len() == keys.len());
        assert forall|m: int| 0 <= m < gs@.len() implies #[trigger] gs@[m].key == keys[m] by {}
        while j < gs.len() && gs[j].key != k
            invariant
                0 <= j <= gs@.len(),
                gs@.len() == keys.len(),
                forall|m: int| 0 <= m < gs@.len() ==> #[trigger] gs@[m].key == keys[m],
                forall|m: int| 0 <= m < j ==> keys[m] != k,
            decreases gs@.len() - j,
        {
            j += 1;
        }
        if j < gs.len() {
            let g = gs[j];
            assert(keys[j as int] == k);
            assert(g.hits == group_sum(s.take(i as int), k, by_node, true));
            assert(g.misses == group_sum(s.take(i as int), k, by_node, false));
            proof {
                assert(keys.contains(k));
                assert(group_keys(s.take(i + 1), by_node) == keys);
                assert(group_keys(s.take(i + 1), by_node)[j as int] == k);
                lemma_keys_prefix_in(s, by_node, i + 1, j as int);
            }
            let h = match g.hits.checked_add(e.stats.hit_count) {
                Some(h) => h,
                None => {
                    proof {
                        lemma_group_sum_prefix(s, k, by_node, true, i + 1);
                        let m = choose|m: int| 0 <= m < group_keys(s, by_node).len() && group_keys(s, by_node)[m] == k;
                        assert(group_sum(s, group_keys(s, by_node)[m], by_node, true) > u64::MAX);
                    }
                    return None;
                },
            };
            let m = match g.misses.checked_add(e.stats.miss_count) {
                Some(m) => m,
                None => {
                    proof {
                        lemma_group_sum_prefix(s, k, by_node, false, i + 1);
                        let m = choose|m: int| 0 <= m < group_keys(s, by_node).len() && group_keys(s, by_node)[m] == k;
                        assert(group_sum(s, group_keys(s, by_node)[m], by_node, false) > u64::MAX);
                    }
                    return None;
                },
            };
            let ghost old_gs = gs@;
            gs.set(j, GroupTotal { key: k, hits: h, misses: m });
            proof {
                lemma_keys_distinct(s.take(i as int), by_node);
                let t = group_totals_of(s.take(i + 1), by_node);
                assert(t.len() == gs@.len());
                assert forall|q: int| 0 <= q < t.len() implies t[q] == gs@[q] by {
                    if q != j {
                        assert(keys[q] != keys[j as int]);
                        assert(old_gs[q] == gs@[q]);
                    }
                }
            }
            assert(gs@ =~= group_totals_of(s.take(i + 1), by_node));
            assert(sums_fit(s.take(i + 1), by_node));
        } else {
            proof {
                assert(!keys.contains(k));
            }
            gs.push(GroupTotal { key: k, hits: e.stats.hit_count, misses: e.stats.miss_count });
            proof {
                assert forall|m: int| 0 <= m < keys.len() implies group_sum(s.take(i + 1), #[trigger] keys[m], by_node, true)
                    == group_sum(s.take(i as int), keys[m], by_node, true)
                    && group_sum(s.take(i + 1), keys[m], by_node, false)
                    == group_sum(s.take(i as int), keys[m], by_node, false) by {
                    assert(keys[m] != k) by {
                        if keys[m] == k { assert(keys.contains(k)); }
                    }
                }
                assert(group_sum(s.take(i as int), k, by_node, true) == 0) by { lemma_absent_sum_zero(s.take(i as int), k, by_node, true); }
                assert(group_sum(s.take(i as int), k, by_node, false) == 0) by { lemma_absent_sum_zero(s.take(i as int), k, by_node, false); }
            }
            proof {
                let nk = group_keys(s.take(i + 1), by_node);
                assert(k == stat_key(s[i as int], by_node));
                assert(nk == keys.push(k));
                let t = group_totals_of(s.take(i + 1), by_node);
                assert(t.len() == gs@.len());
                assert forall|m: int| 0 <= m < t.len() implies t[m] == gs@[m] by {
                    if m < keys.len() {
                        assert(nk[m] == keys[m]);
                    } else {
                        assert(nk[m] == k);
                    }
                }
            }
            assert(gs@ =~= group_totals_of(s.take(i + 1), by_node));
            assert(sums_fit(s.take(i + 1), by_node)) by {
                let nk = group_keys(s.take(i + 1), by_node);
                assert forall|m: int| 0 <= m < nk.len() implies
                    group_sum(s.take(i + 1), #[trigger] nk[m], by_node, true) <= u64::MAX
                        && group_sum(s.take(i + 1), nk[m], by_node, false) <= u64::MAX by {
                    if m < keys.len() {
                        assert(nk[m] == keys[m]);
                        assert(keys[m] != k);
                    }
                }
            }
        }
        i += 1;
    }
    assert(s.take(s.len() as int) =~= s);
    let mut j: usize = 0;
    while j < gs.len()
        invariant
            s == entries@,
            gs@ == group_totals_of(s, by_node),
            sums_fit(s, by_node),
            0 <= j <= gs@.len(),
            forall|m: int| 0 <= m < j ==> group_sum(s, #[trigger] group_keys(s, by_node)[m], by_node, true)
                + group_sum(s, group_keys(s, by_node)[m], by_node, false) <= u64::MAX,
        decreases gs@.len() - j,
    {
        if gs[j].hits.checked_add(gs[j].misses).is_none() {
            return None;
        }
        j += 1;
    }
    Some(gs)
}

/// A key that does not occur in the entries has no hits and no misses.
proof fn lemma_absent_sum_zero(s: Seq<StatEntry>, k: u128, by_node: bool, hits: bool)
    requires
        !group_keys(s, by_node).contains(k),
    ensures
        group_sum(s, k, by_node, hits) == 0,
    decreases s.len(),
{
    if s.len() > 0 {
        let prev = group_keys(s.drop_last(), by_node);
        if prev.contains(k) {
            let j = choose|j: int| 0 <= j < prev.len() && prev[j] == k;
            let kk = stat_key(s.last(), by_node);
            if !prev.contains(kk) {
                assert(prev.push(kk)[j] == k);
            }
            assert(group_keys(s, by_node).contains(k)) by {
                if prev.contains(kk) {
                    assert(group_keys(s, by_node)[j] == k);
                } else {
                    assert(group_keys(s, by_node)[j] == k);
                }
            }
        }
        if stat_key(s.last(), by_node) == k {
            if prev.contains(k) {
            } else {
                assert(group_keys(s, by_node)[prev.len() as int] == k);
            }
        }
        lemma_absent_sum_zero(s.drop_last(), k, by_node, hits);
    }
}

/// A key of a prefix's groups is a key of all the groups.
proof fn lemma_keys_prefix_in(s: Seq<StatEntry>, by_node: bool, i: int, j: int)
    requires
        0 <= i <= s.len(),
        0 <= j < group_keys(s.take(i), by_node).len(),
    ensures
        group_keys(s, by_node).contains(group_keys(s.take(i), by_node)[j]),
    decreases s.len(),
{
    if i < s.len() {
        assert(s.drop_last().take(i) =~= s.take(i));
        lemma_keys_prefix_in(s.drop_last(), by_node, i, j);
        let prev = group_keys(s.drop_last(), by_node);
        let x = group_keys(s.take(i), by_node)[j];
        let m = choose|m: int| 0 <= m < prev.len() && prev[m] == x;
        let kk = stat_key(s.last(), by_node);
        if !prev.contains(kk) {
            assert(prev.push(kk)[m] == x);
        }
        assert(group_keys(s, by_node)[m] == x);
    } else {
        assert(s.take(i) =~= s);
        assert(group_keys(s, by_node)[j] == group_keys(s.take(i), by_node)[j]);
    }
}

/// A query of the hit counts: grouped by "node", "resource" or "time_period",
/// for the region it names.
pub struct HitRateQuery {
    pub group_by: String,
    pub region: Option<String>,
    pub time_period: Option<String>,
}

/// The mathematical value of a [`HitRateEntry`].
pub ghost struct HitRateView {
    pub key: Seq<char>,
    pub hit_count: u64,
    pub miss_count: u64,
}

impl View for HitRateEntry {
    type V = HitRateView;

    open spec fn view(&self) -> HitRateView {
        HitRateView { key: self.key@, hit_count: self.hit_count, miss_count: self.miss_count }
    }
}

/// The views of a list of hit-count entries.
pub open spec fn hit_views(s: Seq<HitRateEntry>) -> Seq<HitRateView> {
    s.map_values(|e: HitRateEntry| e@)
}

/// The statistics entry counts for the region asked for: any entry when none
/// is, else an entry of a known node of that region.
pub open spec fn stat_in_region(st: AppState, e: StatEntry, region: Option<Region>) -> bool {
    match region {
        None => true,
        Some(g) => has_node(st.nodes@, e.node_id) && node_with(st.nodes@, e.node_id).region == g,
    }
}

/// The statistics entries that count for the region asked for, in order.
pub open spec fn region_stats(st: AppState, region: Option<Region>) -> Seq<StatEntry> {
    st.resource_stats@.filter(|e: StatEntry| stat_in_region(st, e, region))
}

/// The name a node group goes by: the node's name, or its identifier when it is not stored.
pub open spec fn node_label(st: AppState, nid: u128) -> Seq<char> {
    if has_node(st.nodes@, nid) { node_with(st.nodes@, nid).name@ } else { uuid_text(nid) }
}

/// The name a resource group goes by: the file name, or the identifier when it is not stored.
pub open spec fn resource_label(st: AppState, rid: u128) -> Seq<char> {
    if has_resource(st.resources@, rid) { resource_with(st.resources@, rid).original_filename@ } else { uuid_text(rid) }
}

/// The hit-count entries of the groups of `s`.
pub open spec fn group_entries(st: AppState, s: Seq<StatEntry>, by_node: bool) -> Seq<HitRateView> {
    group_totals_of(s, by_node).map_values(|g: GroupTotal| HitRateView {
        key: if by_node { node_label(st, g.key) } else { resource_label(st, g.key) },
        hit_count: g.hits,
        miss_count: g.misses,
    })
}

/// The requests since `lo` that count for the region, hits (`hit`) or misses.
pub open spec fn since_records(st: AppState, lo: int, region: Option<Region>, hit: bool) -> Seq<RequestRecord> {
    st.request_history@.filter(|r: RequestRecord| lo <= r.at && record_counted(st, r, None, region) && r.hit == hit)
}

/// The entry of the period since `lo`, named `label`.
pub open spec fn period_entry(st: AppState, label: Seq<char>, lo: int, region: Option<Region>) -> HitRateView {
    HitRateView {
        key: label,
        hit_count: since_records(st, lo, region, true).len() as u64,
        miss_count: since_records(st, lo, region, false).len() as u64,
    }
}

/// The entries of the last hour, the last day and the last week before `now`.
pub open spec fn period_entries(st: AppState, now: int, region: Option<Region>) -> Seq<HitRateView> {
    seq![
        period_entry(st, "近1小时"@, now - HOUR_NANOS, region),
        period_entry(st, "近24小时"@, now - 24 * HOUR_NANOS, region),
        period_entry(st, "近7天"@, now - 7 * DAY_NANOS, region),
    ]
}

/// The answer to a hit-count query at `now`: the node or resource groups of
/// the statistics of the region, `None` when the hits and misses of a group
/// add up to more than `u64` holds; the three periods; or "Invalid group_by".
pub open spec fn hit_rate_outcome(st: AppState, q: HitRateQuery, now: int, r: Option<Result<Vec<HitRateEntry>, ApiError>>) -> bool {
    let region = region_filter(crate::audit::opt_view(q.region));
    if q.group_by@ == "node"@ || q.group_by@ == "resource"@ {
        let by_node = q.group_by@ == "node"@;
        let s = region_stats(st, region);
        if groups_fit(s, by_node) {
            r matches Some(Ok(v)) && hit_views(v@) == group_entries(st, s, by_node)
        } else {
            r is None
        }
    } else if q.group_by@ == "time_period"@ {
        r matches Some(Ok(v)) && hit_views(v@) == period_entries(st, now, region)
    } else {
        r matches Some(res) && refused(res, ErrorKind::BadRequest, "Invalid group_by"@)
    }
}

/// The answer to a hit-count query now, at `now`: `None` where it asks for
/// the periods and a week before `now` is not an instant chrono can
/// represent, else the answer of `hit_rate_outcome`.
pub open spec fn hit_rate_now(st: AppState, q: HitRateQuery, now: int, r: Option<Result<Vec<HitRateEntry>, ApiError>>) -> bool {
    if q.group_by@ == "time_period"@ && !window_representable(7, now) {
        r is None
    } else {
        hit_rate_outcome(st, q, now, r)
    }
}

impl AppState {
    /// The statistics entries that count for `region`.
    pub fn stats_in_region(&self, region: Option<Region>) -> (v: Vec<StatEntry>)
        requires
            self.wf(),
        ensures
            v@ == region_stats(*self, region),
    {
        let ghost es = self.resource_stats@;
        let ghost p = |e: StatEntry| stat_in_region(*self, e, region);
        let mut v: Vec<StatEntry> = Vec::new();
        let mut i: usize = 0;
        while i < self.resource_stats.len()
            invariant
                self.wf(),
                es == self.resource_stats@,
                p == (|e: StatEntry| stat_in_region(*self, e, region)),
                0 <= i <= es.len(),
                v@ == es.take(i as int).filter(p),
            decreases es.len() - i,
        {
            proof { lemma_filter_map_step(es, i as int, p, |e: StatEntry| e); }
            let e = self.resource_stats[i];
            let keep = match region {
                None => true,
                Some(g) => match self.node_pos(e.node_id) {
                    Some(pos) => {
                        proof { self.lemma_node_at(pos as int); }
                        self.nodes[pos].region == g
                    },
                    None => false,
                },
            };
            if keep {
                v.push(e);
            }
            i += 1;
        }
        assert(es.take(es.len() as int) =~= es);
        v
    }

    /// The name of node group `nid` (see `node_label`).
    pub fn node_label_text(&self, nid: u128) -> (s: String)
        requires
            self.wf(),
        ensures
            s@ == node_label(*self, nid),
    {
        match self.node_pos(nid) {
            Some(pos) => {
                proof { self.lemma_node_at(pos as int); }
                self.nodes[pos].name.clone()
            },
            None => id_text(nid),
        }
    }

    /// The name of resource group `rid` (see `resource_label`).
    pub fn resource_label_text(&self, rid: u128) -> (s: String)
        requires
            self.wf(),
        ensures
            s@ == resource_label(*self, rid),
    {
        match self.resource_pos(rid) {
            Some(pos) => {
                proof { self.lemma_resource_at(pos as int); }
                self.resources[pos].original_filename.clone()
            },
            None => id_text(rid),
        }
    }

    /// The number of requests since `lo` that count for `region`, hits (`hit`) or misses.
    pub fn count_since(&self, lo: i128, region: Option<Region>, hit: bool) -> (n: u64)
        requires
            self.wf(),
        ensures
            n == since_records(*self, lo as int, region, hit).len(),
    {
        let ghost hs = self.request_history@;
        let ghost p = |r: RequestRecord| lo <= r.at && record_counted(*self, r, None, region) && r.hit == hit;
        let mut n: u64 = 0;
        let mut i: usize = 0;
        while i < self.request_history.len()
            invariant
                self.wf(),
                hs == self.request_history@,
                p == (|r: RequestRecord| lo <= r.at && record_counted(*self, r, None, region) && r.hit == hit),
                0 <= i <= hs.len(),
                n == hs.take(i as int).filter(p).len(),
                n <= i,
            decreases hs.len() - i,
        {
            proof { lemma_filter_map_step(hs, i as int, p, |r: RequestRecord| r); }
            let r = self.request_history[i];
            let mut counted = lo <= r.at && r.hit == hit;
            if counted {
                if let Some(g) = region {
                    if let Some(nid) = r.node_id {
                        if let Some(pos) = self.node_pos(nid) {
                            proof { self.lemma_node_at(pos as int); }
                            if self.nodes[pos].region != g {
                                counted = false;
                            }
                        }
                    }
                }
            }
            assert(counted == p(r));
            if counted {
                n = n + 1;
            }
            i += 1;
        }
        assert(hs.take(hs.len() as int) =~= hs);
        n
    }

    /// The hit-count entries of the groups of `s`, where they all fit.
    fn group_hit_entries(&self, s: &Vec<StatEntry>, by_node: bool) -> (r: Option<Vec<HitRateEntry>>)
        requires
            self.wf(),
        ensures
            match r {
                Some(v) => groups_fit(s@, by_node) && hit_views(v@) == group_entries(*self, s@, by_node),
                None => !groups_fit(s@, by_node),
            },
    {
        let gs = match group_totals(s, by_node) {
            Some(gs) => gs,
            None => return None,
        };
        let ghost target = group_entries(*self, s@, by_node);
        let mut v: Vec<HitRateEntry> = Vec::new();
        let mut i: usize = 0;
        while i < gs.len()
            invariant
                self.wf(),
                gs@ == group_totals_of(s@, by_node),
                target == group_entries(*self, s@, by_node),
                0 <= i <= gs@.len(),
                hit_views(v@) == target.take(i as int),
            decreases gs@.len() - i,
        {
            let g = gs[i];
            let key = if by_node { self.node_label_text(g.key) } else { self.resource_label_text(g.key) };
            let e = HitRateEntry { key, hit_count: g.hits, miss_count: g.misses };
            let ghost before = v@;
            assert(group_totals_of(s@, by_node)[i as int] == g);
            assert(target[i as int] == e@);
            v.push(e);
            assert(hit_views(v@) =~= hit_views(before).push(e@));
            assert(hit_views(v@) =~= target.take(i + 1));
            i += 1;
        }
        assert(target.take(gs@.len() as int) =~= target);
        Some(v)
    }

    /// The answer to a hit-count query at `now` (see `hit_rate_outcome`).
    pub fn get_hit_rate_at(&self, q: &HitRateQuery, now: i128) -> (r: Option<Result<Vec<HitRateEntry>, ApiError>>)
        requires
            self.wf(),
            q.group_by@ == "time_period"@ ==> window_representable(7, now as int),
        ensures
            hit_rate_outcome(*self, *q, now as int, r),
    {
        let region = match &q.region { Some(t) => Region::from_str(t.as_str()), None => None };
        assert(region == region_filter(crate::audit::opt_view(q.region)));
        let by_node = str_equal(q.group_by.as_str(), "node");
        let by_resource = str_equal(q.group_by.as_str(), "resource");
        if by_node || by_resource {
            let s = self.stats_in_region(region);
            return match self.group_hit_entries(&s, by_node) {
                Some(v) => Some(Ok(v)),
                None => None,
            };
        }
        if str_equal(q.group_by.as_str(), "time_period") {
            let hour_ago = now - HOUR_NANOS;
            let day_ago = now - 24 * HOUR_NANOS;
            let week_ago = now - 7 * DAY_NANOS;
            let mut v: Vec<HitRateEntry> = Vec::new();
            v.push(HitRateEntry {
                key: owned("近1小时"),
                hit_count: self.count_since(hour_ago, region, true),
                miss_count: self.count_since(hour_ago, region, false),
            });
            v.push(HitRateEntry {
                key: owned("近24小时"),
                hit_count: self.count_since(day_ago, region, true),
                miss_count: self.count_since(day_ago, region, false),
            });
            v.push(HitRateEntry {
                key: owned("近7天"),
                hit_count: self.count_since(week_ago, region, true),
                miss_count: self.count_since(week_ago, region, false),
            });
            assert(hit_views(v@) =~= period_entries(*self, now as int, region));
            return Some(Ok(v));
        }
        Some(refuse(ErrorKind::BadRequest, "Invalid group_by"))
    }

    /// The answer to a hit-count query now. `None` also where the query asks
    /// for the periods and a week before now is not an instant chrono can represent.
    pub fn get_hit_rate(&self, q: &HitRateQuery) -> (r: Option<Result<Vec<HitRateEntry>, ApiError>>)
        requires
            self.wf(),
        ensures
            exists|now: i128| #[trigger] hit_rate_now(*self, *q, now as int, r),
    {
        let now = now_nanos();
        if str_equal(q.group_by.as_str(), "time_period") && !window_fits(7, now) {
            assert(hit_rate_now(*self, *q, now as int, None));
            return None;
        }
        let r = self.get_hit_rate_at(q, now);
        assert(hit_rate_now(*self, *q, now as int, r));
        r
    }
}

/// The bytes of the stored resources published on node `nid`.
pub open spec fn node_used(st: AppState, ps: Seq<ResourcePublish>, nid: u128) -> nat
    decreases ps.len(),
{
    if ps.len() == 0 {
        0
    } else {
        node_used(st, ps.drop_last(), nid) + if ps.last().node_id == nid && has_resource(st.resources@, ps.last().resource_id) {
            resource_with(st.resources@, ps.last().resource_id).size_bytes as nat
        } else {
            0nat
        }
    }
}

/// The bytes over a prefix of the publications are at most those over all of them.
pub proof fn lemma_node_used_prefix(st: AppState, ps: Seq<ResourcePublish>, nid: u128, i: int)
    requires
        0 <= i <= ps.len(),
    ensures
        node_used(st, ps.take(i), nid) <= node_used(st, ps, nid),
    decreases ps.len(),
{
    if i < ps.len() {
        assert(ps.drop_last().take(i) =~= ps.take(i));
        lemma_node_used_prefix(st, ps.drop_last(), nid, i);
    } else {
        assert(ps.take(i) =~= ps);
    }
}

/// The mathematical value of a [`NodeUsage`].
pub ghost struct NodeUsageView {
    pub name: Seq<char>,
    pub used_bytes: u64,
    pub capacity_gb: u64,
}

/// The usage of each stored node, in order.
pub open spec fn usages_of(st: AppState) -> Seq<NodeUsageView> {
    st.nodes@.map_values(|n: Node| NodeUsageView {
        name: n.name@,
        used_bytes: node_used(st, st.resource_publishes@, n.id) as u64,
        capacity_gb: n.capacity_gb,
    })
}

/// The views of a list of node usages.
pub open spec fn usage_views(s: Seq<NodeUsage>) -> Seq<NodeUsageView> {
    s.map_values(|u: NodeUsage| NodeUsageView { name: u.name@, used_bytes: u.used_bytes, capacity_gb: u.capacity_gb })
}

/// The bytes used on every stored node fit in `u64`.
pub open spec fn usage_fits(st: AppState) -> bool {
    forall|i: int| 0 <= i < st.nodes@.len() ==> node_used(st, st.resource_publishes@, #[trigger] st.nodes@[i].id) <= u64::MAX
}

/// The requests since the start of the day of `now`, hits only if `hits`.
pub open spec fn today_records(st: AppState, now: int, hits: bool) -> Seq<RequestRecord> {
    st.request_history@.filter(|r: RequestRecord| r.at >= day_start_of(now) && (!hits || r.hit))
}

/// The hit counts of resource groups, as sort keys.
pub open spec fn group_hits(s: Seq<GroupTotal>) -> Seq<i128> {
    s.map_values(|g: GroupTotal| g.hits as i128)
}

/// At most the first `n` elements of `s`.
pub open spec fn first_n<T>(s: Seq<T>, n: int) -> Seq<T> {
    if s.len() <= n { s } else { s.take(n) }
}

/// `s` in reverse order.
pub open spec fn reversed<T>(s: Seq<T>) -> Seq<T> {
    Seq::new(s.len(), |i: int| s[s.len() - 1 - i])
}

/// The file names and hit counts of the stored resources among at most the
/// first ten groups of `s`.
pub open spec fn named_top(st: AppState, s: Seq<GroupTotal>) -> Seq<(Seq<char>, u64)> {
    first_n(s, 10).filter(|g: GroupTotal| has_resource(st.resources@, g.key)).map_values(
        |g: GroupTotal| (resource_with(st.resources@, g.key).original_filename@, g.hits),
    )
}

/// The views of a list of (name, count) pairs.
pub open spec fn pair_views(s: Seq<(String, u64)>) -> Seq<(Seq<char>, u64)> {
    s.map_values(|p: (String, u64)| (p.0@, p.1))
}

/// A task in this state is waiting or running.
pub open spec fn is_active(s: TaskStatus) -> bool {
    s == TaskStatus::Running || s == TaskStatus::Pending
}

/// The dashboard at `now`: `None` where the hits and misses of all the
/// statistics add up to more than `u64` holds, or the bytes used on a node
/// do; else the counts of resources and nodes, the hits and misses, the
/// requests and hits since the start of the day, the ten resources with the
/// most hits and the ten with the fewest (of the resources with statistics,
/// ordered by hits with `order`, those still stored), the usage of each
/// node, and the numbers of waiting or running preheat and purge tasks.
pub open spec fn overview_outcome(st: AppState, now: int, order: Seq<usize>, r: Option<OverviewStats>) -> bool {
    let es = st.resource_stats@;
    if total_sum(es, true) + total_sum(es, false) > u64::MAX || !usage_fits(st) {
        r is None
    } else {
        let groups = group_totals_of(es, false);
        let sorted = arrange(groups, order);
        &&& is_desc_order(order, group_hits(groups))
        &&& r matches Some(o) && {
            &&& o.total_resources == st.resources@.len()
            &&& o.total_nodes == st.nodes@.len()
            &&& o.total_hits == total_sum(es, true)
            &&& o.total_misses == total_sum(es, false)
            &&& o.total_requests_today == today_records(st, now, false).len()
            &&& o.total_hits_today == today_records(st, now, true).len()
            &&& pair_views(o.top_hot_resources@) == named_top(st, sorted)
            &&& pair_views(o.top_cold_resources@) == named_top(st, reversed(sorted))
            &&& usage_views(o.node_capacity_usage@) == usages_of(st)
            &&& o.active_preheat_tasks == st.preheat_tasks@.filter(|t: PreheatTask| is_active(t.status)).len()
            &&& o.active_purge_tasks == st.purge_tasks@.filter(|t: PurgeTask| is_active(t.status)).len()
        }
    }
}

/// The hits (`hits`) or misses of all the entries, or `None` when they exceed `u64`.
fn total_of(es: &Vec<StatEntry>, hits: bool) -> (r: Option<u64>)
    ensures
        match r {
            Some(t) => t == total_sum(es@, hits),
            None => total_sum(es@, hits) > u64::MAX,
        },
{
    let ghost s = es@;
    let mut t: u64 = 0;
    let mut i: usize = 0;
    while i < es.len()
        invariant
            s == es@,
            0 <= i <= s.len(),
            t == total_sum(s.take(i as int), hits),
        decreases s.len() - i,
    {
        assert(s.take(i + 1).drop_last() =~= s.take(i as int));
        let v = if hits { es[i].stats.hit_count } else { es[i].stats.miss_count };
        match t.checked_add(v) {
            Some(n) => t = n,
            None => {
                proof { lemma_total_prefix(s, hits, i + 1); }
                return None;
            },
        }
        i += 1;
    }
    assert(s.take(s.len() as int) =~= s);
    Some(t)
}

/// The total over a prefix of the entries is at most the total over all of them.
proof fn lemma_total_prefix(s: Seq<StatEntry>, hits: bool, i: int)
    requires
        0 <= i <= s.len(),
    ensures
        total_sum(s.take(i), hits) <= total_sum(s, hits),
    decreases s.len(),
{
    if i < s.len() {
        assert(s.drop_last().take(i) =~= s.take(i));
        lemma_total_prefix(s.drop_last(), hits, i);
    } else {
        assert(s.take(i) =~= s);
    }
}

/// Within the totals, every group fits.
proof fn lemma_groups_fit_within(s: Seq<StatEntry>, by_node: bool)
    requires
        total_sum(s, true) + total_sum(s, false) <= u64::MAX,
    ensures
        groups_fit(s, by_node),
{
    assert forall|j: int| 0 <= j < group_keys(s, by_node).len() implies
        group_sum(s, #[trigger] group_keys(s, by_node)[j], by_node, true)
            + group_sum(s, group_keys(s, by_node)[j], by_node, false) <= u64::MAX by {
        lemma_group_within_total(s, group_keys(s, by_node)[j], by_node, true);
        lemma_group_within_total(s, group_keys(s, by_node)[j], by_node, false);
    }
}

impl AppState {
    /// The bytes of the stored resources published on node `nid`, or `None`
    /// when they exceed `u64`.
    pub fn used_bytes(&self, nid: u128) -> (r: Option<u64>)
        requires
            self.wf(),
        ensures
            match r {
                Some(b) => b == node_used(*self, self.resource_publishes@, nid),
                None => node_used(*self, self.resource_publishes@, nid) > u64::MAX,
            },
    {
        let ghost ps = self.resource_publishes@;
        let mut b: u64 = 0;
        let mut i: usize = 0;
        while i < self.resource_publishes.len()
            invariant
                self.wf(),
                ps == self.resource_publishes@,
                0 <= i <= ps.len(),
                b == node_used(*self, ps.take(i as int), nid),
            decreases ps.len() - i,
        {
            assert(ps.take(i + 1).drop_last() =~= ps.take(i as int));
            let p = self.resource_publishes[i];
            if p.node_id == nid {
                if let Some(pos) = self.resource_pos(p.resource_id) {
                    proof { self.lemma_resource_at(pos as int); }
                    match b.checked_add(self.resources[pos].size_bytes) {
                        Some(n) => b = n,
                        None => {
                            proof { lemma_node_used_prefix(*self, ps, nid, i + 1); }
                            return None;
                        },
                    }
                }
            }
            i += 1;
        }
        assert(ps.take(ps.len() as int) =~= ps);
        Some(b)
    }

    /// The usage of each stored node, or `None` when the bytes used on some node exceed `u64`.
    fn node_usages(&self) -> (r: Option<Vec<NodeUsage>>)
        requires
            self.wf(),
        ensures
            match r {
                Some(v) => usage_fits(*self) && usage_views(v@) == usages_of(*self),
                None => !usage_fits(*self),
            },
    {
        let ghost target = usages_of(*self);
        let mut v: Vec<NodeUsage> = Vec::new();
        let mut i: usize = 0;
        while i < self.nodes.len()
            invariant
                self.wf(),
                target == usages_of(*self),
                0 <= i <= self.nodes@.len(),
                usage_views(v@) == target.take(i as int),
                forall|j: int| 0 <= j < i ==> node_used(*self, self.resource_publishes@, #[trigger] self.nodes@[j].id) <= u64::MAX,
            decreases self.nodes@.len() - i,
        {
            let n = &self.nodes[i];
            let used = match self.used_bytes(n.id) {
                Some(b) => b,
                None => return None,
            };
            let u = NodeUsage { name: n.name.clone(), used_bytes: used, capacity_gb: n.capacity_gb };
            let ghost before = v@;
            v.push(u);
            assert(usage_views(v@) =~= usage_views(before).push(target[i as int]));
            assert(usage_views(v@) =~= target.take(i + 1));
            i += 1;
        }
        assert(target.take(self.nodes@.len() as int) =~= target);
        Some(v)
    }

    /// The number of requests since `lo`, hits only if `hits`.
    fn count_today(&self, lo: i128, hits: bool) -> (n: u64)
        ensures
            n == self.request_history@.filter(|r: RequestRecord| r.at >= lo && (!hits || r.hit)).len(),
    {
        let ghost hs = self.request_history@;
        let ghost p = |r: RequestRecord| r.at >= lo && (!hits || r.hit);
        let mut n: u64 = 0;
        let mut i: usize = 0;
        while i < self.request_history.len()
            invariant
                hs == self.request_history@,
                p == (|r: RequestRecord| r.at >= lo && (!hits || r.hit)),
                0 <= i <= hs.len(),
                n == hs.take(i as int).filter(p).len(),
                n <= i,
            decreases hs.len() - i,
        {
            proof { lemma_filter_map_step(hs, i as int, p, |r: RequestRecord| r); }
            let r = self.request_history[i];
            if r.at >= lo && (!hits || r.hit) {
                n = n + 1;
            }
            i += 1;
        }
        assert(hs.take(hs.len() as int) =~= hs);
        n
    }

    /// The (file name, hits) pairs of the stored resources among the groups
    /// at positions `order[k]`, `k` running over at most ten steps from the
    /// front (`forward`) or from the back.
    fn top_named(&self, gs: &Vec<GroupTotal>, order: &Vec<usize>, forward: bool) -> (v: Vec<(String, u64)>)
        requires
            self.wf(),
            order@.len() == gs@.len(),
            forall|j: int| 0 <= j < order@.len() ==> #[trigger] order@[j] < gs@.len(),
        ensures
            pair_views(v@) == named_top(*self, if forward { arrange(gs@, order@) } else { reversed(arrange(gs@, order@)) }),
    {
        let ghost sorted = if forward { arrange(gs@, order@) } else { reversed(arrange(gs@, order@)) };
        let ghost head = first_n(sorted, 10);
        let ghost p = |g: GroupTotal| has_resource(self.resources@, g.key);
        let ghost f = |g: GroupTotal| (resource_with(self.resources@, g.key).original_filename@, g.hits);
        let n = order.len();
        let limit: usize = if n <= 10 { n } else { 10 };
        assert(head.len() == limit);
        let mut v: Vec<(String, u64)> = Vec::new();
        let mut k: usize = 0;
        while k < limit
            invariant
                self.wf(),
                n == order@.len(),
                order@.len() == gs@.len(),
                forall|j: int| 0 <= j < order@.len() ==> #[trigger] order@[j] < gs@.len(),
                sorted == (if forward { arrange(gs@, order@) } else { reversed(arrange(gs@, order@)) }),
                head == first_n(sorted, 10),
                head.len() == limit,
                limit <= n,
                p == (|g: GroupTotal| has_resource(self.resources@, g.key)),
                f == (|g: GroupTotal| (resource_with(self.resources@, g.key).original_filename@, g.hits)),
                0 <= k <= limit,
                pair_views(v@) == head.take(k as int).filter(p).map_values(f),
            decreases limit - k,
        {
            proof { lemma_filter_map_step(head, k as int, p, f); }
            let idx = if forward { order[k] } else { order[n - 1 - k] };
            let g = gs[idx];
            assert(head[k as int] == g);
            if let Some(pos) = self.resource_pos(g.key) {
                proof { self.lemma_resource_at(pos as int); }
                let ghost before = v@;
                v.push((self.resources[pos].original_filename.clone(), g.hits));
                assert(pair_views(v@) =~= pair_views(before).push(f(g)));
            }
            k += 1;
        }
        assert(head.take(limit as int) =~= head);
        v
    }

    /// The number of preheat tasks that are waiting or running.
    fn active_preheat_count(&self) -> (n: u64)
        ensures
            n == self.preheat_tasks@.filter(|t: PreheatTask| is_active(t.status)).len(),
    {
        let ghost ts = self.preheat_tasks@;
        let ghost p = |t: PreheatTask| is_active(t.status);
        let mut n: u64 = 0;
        let mut i: usize = 0;
        while i < self.preheat_tasks.len()
            invariant
                ts == self.preheat_tasks@,
                p == (|t: PreheatTask| is_active(t.status)),
                0 <= i <= ts.len(),
                n == ts.take(i as int).filter(p).len(),
                n <= i,
            decreases ts.len() - i,
        {
            proof { lemma_filter_map_step(ts, i as int, p, |t: PreheatTask| t.status); }
            let st = self.preheat_tasks[i].status;
            if st == TaskStatus::Running || st == TaskStatus::Pending {
                n = n + 1;
            }
            i += 1;
        }
        assert(ts.take(ts.len() as int) =~= ts);
        n
    }

    /// The number of purge tasks that are waiting or running.
    fn active_purge_count(&self) -> (n: u64)
        ensures
            n == self.purge_tasks@.filter(|t: PurgeTask| is_active(t.status)).len(),
    {
        let ghost ts = self.purge_tasks@;
        let ghost p = |t: PurgeTask| is_active(t.status);
        let mut n: u64 = 0;
        let mut i: usize = 0;
        while i < self.purge_tasks.len()
            invariant
                ts == self.purge_tasks@,
                p == (|t: PurgeTask| is_active(t.status)),
                0 <= i <= ts.len(),
                n == ts.take(i as int).filter(p).len(),
                n <= i,
            decreases ts.len() - i,
        {
            proof { lemma_filter_map_step(ts, i as int, p, |t: PurgeTask| t.status); }
            let st = self.purge_tasks[i].status;
            if st == TaskStatus::Running || st == TaskStatus::Pending {
                n = n + 1;
            }
            i += 1;
        }
        assert(ts.take(ts.len() as int) =~= ts);
        n
    }

    /// The dashboard at `now` (see `overview_outcome`).
    pub fn get_overview_at(&self, now: i128) -> (r: Option<OverviewStats>)
        requires
            self.wf(),
            representable(now as int),
        ensures
            exists|order: Seq<usize>| #[trigger] overview_outcome(*self, now as int, order, r),
    {
        let ghost es = self.resource_stats@;
        let hits = match total_of(&self.resource_stats, true) {
            Some(h) => h,
            None => {
                assert(overview_outcome(*self, now as int, Seq::empty(), None));
                return None;
            },
        };
        let misses = match total_of(&self.resource_stats, false) {
            Some(m) => m,
            None => {
                assert(overview_outcome(*self, now as int, Seq::empty(), None));
                return None;
            },
        };
        if hits.checked_add(misses).is_none() {
            assert(overview_outcome(*self, now as int, Seq::empty(), None));
            return None;
        }
        let usages = match self.node_usages() {
            Some(u) => u,
            None => {
                assert(overview_outcome(*self, now as int, Seq::empty(), None));
                return None;
            },
        };
        let today = day_start(now);
        let requests_today = self.count_today(today, false);
        let hits_today = self.count_today(today, true);
        proof { lemma_groups_fit_within(es, false); }
        let gs = match group_totals(&self.resource_stats, false) {
            Some(g) => g,
            None => return None,
        };
        let mut keys: Vec<i128> = Vec::new();
        let mut k: usize = 0;
        while k < gs.len()
            invariant
                0 <= k <= gs@.len(),
                keys@ == group_hits(gs@).take(k as int),
            decreases gs@.len() - k,
        {
            keys.push(gs[k].hits as i128);
            assert(keys@ =~= group_hits(gs@).take(k + 1));
            k += 1;
        }
        assert(keys@ =~= group_hits(gs@));
        let order = desc_order(&keys);
        let hot = self.top_named(&gs, &order, true);
        let cold = self.top_named(&gs, &order, false);
        let o = OverviewStats {
            total_resources: self.resources.len() as u64,
            total_nodes: self.nodes.len() as u64,
            total_hits: hits,
            total_misses: misses,
            total_requests_today: requests_today,
            total_hits_today: hits_today,
            top_hot_resources: hot,
            top_cold_resources: cold,
            node_capacity_usage: usages,
            active_preheat_tasks: self.active_preheat_count(),
            active_purge_tasks: self.active_purge_count(),
        };
        assert(overview_outcome(*self, now as int, order@, Some(o)));
        Some(o)
    }

    /// The dashboard now (see `get_overview_at`).
    pub fn get_overview(&self) -> (r: Option<OverviewStats>)
        requires
            self.wf(),
        ensures
            exists|now: i128, order: Seq<usize>| #[trigger] overview_outcome(*self, now as int, order, r),
    {
        let now = now_nanos();
        self.get_overview_at(now)
    }
}

/// One day of the report: the requests that day, the hits, and the misses.
#[derive(Clone, Copy, Debug)]
pub struct ReportDay {
    pub day_start: i128,
    pub requests: u64,
    pub hits: u64,
    pub misses: u64,
}

/// One node of the report: its name, its region's name, its hits and misses.
pub struct NodeReportRow {
    pub name: String,
    pub region: String,
    pub hits: u64,
    pub misses: u64,
}

/// One resource of the report: its file name, business line, MIME type, hits and misses.
pub struct ResourceReportRow {
    pub name: String,
    pub business_line: String,
    pub mime_type: String,
    pub hits: u64,
    pub misses: u64,
}

/// The figures of the CSV report: the days, the nodes, and the resources
/// with the most requests.
pub struct StatsReport {
    pub days: Vec<ReportDay>,
    pub nodes: Vec<NodeReportRow>,
    pub resources: Vec<ResourceReportRow>,
}

/// The mathematical value of a [`NodeReportRow`].
pub ghost struct NodeRowView {
    pub name: Seq<char>,
    pub region: Seq<char>,
    pub hits: u64,
    pub misses: u64,
}

/// The mathematical value of a [`ResourceReportRow`].
pub ghost struct ResourceRowView {
    pub name: Seq<char>,
    pub business_line: Seq<char>,
    pub mime_type: Seq<char>,
    pub hits: u64,
    pub misses: u64,
}

/// The views of a list of node rows.
pub open spec fn node_row_views(s: Seq<NodeReportRow>) -> Seq<NodeRowView> {
    s.map_values(|r: NodeReportRow| NodeRowView { name: r.name@, region: r.region@, hits: r.hits, misses: r.misses })
}

/// The views of a list of resource rows.
pub open spec fn resource_row_views(s: Seq<ResourceReportRow>) -> Seq<ResourceRowView> {
    s.map_values(|r: ResourceReportRow| ResourceRowView {
        name: r.name@,
        business_line: r.business_line@,
        mime_type: r.mime_type@,
        hits: r.hits,
        misses: r.misses,
    })
}

/// The report day starting at `lo`.
pub open spec fn report_day(st: AppState, lo: int) -> ReportDay {
    let requests = window_records(st, lo, lo + DAY_NANOS, None, None, false).len();
    let hits = window_records(st, lo, lo + DAY_NANOS, None, None, true).len();
    ReportDay { day_start: lo as i128, requests: requests as u64, hits: hits as u64, misses: (requests - hits) as u64 }
}

/// The days of the report: the `days` days before `now`, oldest first.
pub open spec fn report_days(st: AppState, days: u32, now: int) -> Seq<ReportDay> {
    Seq::new(days as nat, |k: int| report_day(st, now - days * DAY_NANOS + k * DAY_NANOS))
}

/// The row of node group `g`; a node no longer stored has its identifier
/// for a name and no region.
pub open spec fn node_row(st: AppState, g: GroupTotal) -> NodeRowView {
    NodeRowView {
        name: node_label(st, g.key),
        region: if has_node(st.nodes@, g.key) { region_label(node_with(st.nodes@, g.key).region) } else { Seq::empty() },
        hits: g.hits,
        misses: g.misses,
    }
}

/// The row of resource group `g`; a resource no longer stored has its
/// identifier for a name and no business line or MIME type.
pub open spec fn resource_row(st: AppState, g: GroupTotal) -> ResourceRowView {
    let known = has_resource(st.resources@, g.key);
    ResourceRowView {
        name: resource_label(st, g.key),
        business_line: if known { resource_with(st.resources@, g.key).business_line@ } else { Seq::empty() },
        mime_type: if known { resource_with(st.resources@, g.key).mime_type@ } else { Seq::empty() },
        hits: g.hits,
        misses: g.misses,
    }
}

/// The requests of each group, as sort keys.
pub open spec fn group_requests(s: Seq<GroupTotal>) -> Seq<i128> {
    s.map_values(|g: GroupTotal| (g.hits + g.misses) as i128)
}

/// The report over the `days` days before `now`: `None` where the hits and
/// misses of a node or of a resource add up to more than `u64` holds; else
/// the days, the node rows in the order the nodes first occur in the
/// statistics, and the rows of at most twenty resources with the most
/// requests (ordered with `order`).
pub open spec fn report_outcome(st: AppState, days: u32, now: int, order: Seq<usize>, r: Option<StatsReport>) -> bool {
    let es = st.resource_stats@;
    if !groups_fit(es, true) || !groups_fit(es, false) {
        r is None
    } else {
        let rg = group_totals_of(es, false);
        &&& is_desc_order(order, group_requests(rg))
        &&& r matches Some(rep) && {
            &&& rep.days@ == report_days(st, days, now)
            &&& node_row_views(rep.nodes@) == group_totals_of(es, true).map_values(|g: GroupTotal| node_row(st, g))
            &&& resource_row_views(rep.resources@) == first_n(arrange(rg, order), 20).map_values(|g: GroupTotal| resource_row(st, g))
        }
    }
}

/// A list keeps no more elements when fewer satisfy the predicate.
proof fn lemma_filter_len_mono(s: Seq<RequestRecord>, p: spec_fn(RequestRecord) -> bool, q: spec_fn(RequestRecord) -> bool)
    requires
        forall|x: RequestRecord| #[trigger] q(x) ==> p(x),
    ensures
        s.filter(q).len() <= s.filter(p).len(),
    decreases s.len(),
{
    reveal(Seq::filter);
    if s.len() > 0 {
        lemma_filter_len_mono(s.drop_last(), p, q);
        assert(s =~= s.drop_last().push(s.last()));
        s.drop_last().lemma_filter_push(s.last(), p);
        s.drop_last().lemma_filter_push(s.last(), q);
    }
}

impl AppState {
    /// The days of the report over the `days` days before `now`.
    pub fn report_days_at(&self, days: u32, now: i128) -> (v: Vec<ReportDay>)
        requires
            self.wf(),
            window_representable(days, now as int),
        ensures
            v@ == report_days(*self, days, now as int),
    {
        let d: i128 = days as i128;
        assert(d * 86_400_000_000_000 <= 4294967295 * 86_400_000_000_000) by (nonlinear_arith)
            requires 0 <= d <= 4294967295;
        let start: i128 = now - d * DAY_NANOS;
        let ghost target = report_days(*self, days, now as int);
        let mut v: Vec<ReportDay> = Vec::new();
        let mut k: u32 = 0;
        while k < days
            invariant
                self.wf(),
                window_representable(days, now as int),
                d == days as i128,
                start == now - days * DAY_NANOS,
                target == report_days(*self, days, now as int),
                0 <= k <= days,
                v@ == target.take(k as int),
            decreases days - k,
        {
            let kk: i128 = k as i128;
            assert(kk * 86_400_000_000_000 + 86_400_000_000_000 <= d * 86_400_000_000_000) by (nonlinear_arith)
                requires 0 <= kk < d;
            assert(kk * 86_400_000_000_000 >= 0) by (nonlinear_arith)
                requires 0 <= kk;
            let lo: i128 = start + kk * DAY_NANOS;
            let hi: i128 = lo + DAY_NANOS;
            let requests = self.count_window(lo, hi, None, None, false);
            let hits = self.count_window(lo, hi, None, None, true);
            proof {
                lemma_filter_len_mono(
                    self.request_history@,
                    window_pred(*self, lo as int, hi as int, None, None, false),
                    window_pred(*self, lo as int, hi as int, None, None, true),
                );
            }
            let day = ReportDay { day_start: lo, requests, hits, misses: requests - hits };
            assert(day == report_day(*self, start + k * DAY_NANOS));
            v.push(day);
            assert(v@ =~= target.take(k + 1));
            k += 1;
        }
        assert(v@ =~= target);
        v
    }

    /// The node rows of the report.
    fn node_rows(&self, gs: &Vec<GroupTotal>) -> (v: Vec<NodeReportRow>)
        requires
            self.wf(),
        ensures
            node_row_views(v@) == gs@.map_values(|g: GroupTotal| node_row(*self, g)),
    {
        let ghost target = gs@.map_values(|g: GroupTotal| node_row(*self, g));
        let mut v: Vec<NodeReportRow> = Vec::new();
        let mut i: usize = 0;
        while i < gs.len()
            invariant
                self.wf(),
                target == gs@.map_values(|g: GroupTotal| node_row(*self, g)),
                0 <= i <= gs@.len(),
                node_row_views(v@) == target.take(i as int),
            decreases gs@.len() - i,
        {
            let g = gs[i];
            let name = self.node_label_text(g.key);
            let region = match self.node_pos(g.key) {
                Some(pos) => {
                    proof { self.lemma_node_at(pos as int); }
                    owned(self.nodes[pos].region.to_string())
                },
                None => String::new(),
            };
            let row = NodeReportRow { name, region, hits: g.hits, misses: g.misses };
            let ghost before = v@;
            v.push(row);
            assert(node_row_views(v@) =~= node_row_views(before).push(target[i as int]));
            assert(node_row_views(v@) =~= target.take(i + 1));
            i += 1;
        }
        assert(target.take(gs@.len() as int) =~= target);
        v
    }

    /// The resource rows of the report: at most twenty groups, at positions `order[k]`.
    fn resource_rows(&self, gs: &Vec<GroupTotal>, order: &Vec<usize>) -> (v: Vec<ResourceReportRow>)
        requires
            self.wf(),
            order@.len() == gs@.len(),
            forall|j: int| 0 <= j < order@.len() ==> #[trigger] order@[j] < gs@.len(),
        ensures
            resource_row_views(v@) == first_n(arrange(gs@, order@), 20).map_values(|g: GroupTotal| resource_row(*self, g)),
    {
        let ghost head = first_n(arrange(gs@, order@), 20);
        let ghost target = head.map_values(|g: GroupTotal| resource_row(*self, g));
        let n = order.len();
        let limit: usize = if n <= 20 { n } else { 20 };
        let mut v: Vec<ResourceReportRow> = Vec::new();
        let mut k: usize = 0;
        while k < limit
            invariant
                self.wf(),
                n == order@.len(),
                order@.len() == gs@.len(),
                forall|j: int| 0 <= j < order@.len() ==> #[trigger] order@[j] < gs@.len(),
                head == first_n(arrange(gs@, order@), 20),
                target == head.map_values(|g: GroupTotal| resource_row(*self, g)),
                limit == head.len(),
                0 <= k <= limit,
                resource_row_views(v@) == target.take(k as int),
            decreases limit - k,
        {
            let g = gs[order[k]];
            assert(head[k as int] == g);
            let name = self.resource_label_text(g.key);
            let (bl, mime) = match self.resource_pos(g.key) {
                Some(pos) => {
                    proof { self.lemma_resource_at(pos as int); }
                    (self.resources[pos].business_line.clone(), self.resources[pos].mime_type.clone())
                },
                None => (String::new(), String::new()),
            };
            let row = ResourceReportRow { name, business_line: bl, mime_type: mime, hits: g.hits, misses: g.misses };
            let ghost before = v@;
            v.push(row);
            assert(resource_row_views(v@) =~= resource_row_views(before).push(target[k as int]));
            assert(resource_row_views(v@) =~= target.take(k + 1));
            k += 1;
        }
        assert(target.take(limit as int) =~= target);
        v
    }

    /// The report over the `days` days before `now` (see `report_outcome`).
    pub fn stats_report_at(&self, days: u32, now: i128) -> (r: Option<StatsReport>)
        requires
            self.wf(),
            window_representable(days, now as int),
        ensures
            exists|order: Seq<usize>| #[trigger] report_outcome(*self, days, now as int, order, r),
    {
        let day_rows = self.report_days_at(days, now);
        let ng = match group_totals(&self.resource_stats, true) {
            Some(g) => g,
            None => {
                assert(report_outcome(*self, days, now as int, Seq::empty(), None));
                return None;
            },
        };
        let rg = match group_totals(&self.resource_stats, false) {
            Some(g) => g,
            None => {
                assert(report_outcome(*self, days, now as int, Seq::empty(), None));
                return None;
            },
        };
        let nodes = self.node_rows(&ng);
        let mut keys: Vec<i128> = Vec::new();
        let mut k: usize = 0;
        while k < rg.len()
            invariant
                0 <= k <= rg@.len(),
                rg@ == group_totals_of(self.resource_stats@, false),
                groups_fit(self.resource_stats@, false),
                keys@ == group_requests(rg@).take(k as int),
            decreases rg@.len() - k,
        {
            let g = rg[k];
            proof {
                let gk = group_keys(self.resource_stats@, false);
                assert(g.key == gk[k as int]);
                assert(group_sum(self.resource_stats@, gk[k as int], false, true)
                    + group_sum(self.resource_stats@, gk[k as int], false, false) <= u64::MAX);
            }
            keys.push((g.hits + g.misses) as i128);
            assert(keys@ =~= group_requests(rg@).take(k + 1));
            k += 1;
        }
        assert(keys@ =~= group_requests(rg@));
        let order = desc_order(&keys);
        let resources = self.resource_rows(&rg, &order);
        let rep = StatsReport { days: day_rows, nodes, resources };
        assert(report_outcome(*self, days, now as int, order@, Some(rep)));
        Some(rep)
    }
}

} // verus!
