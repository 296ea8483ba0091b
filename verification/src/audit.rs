//! The audit trail: recording actions, pruning old entries, and listing them.
use vstd::prelude::*;
use crate::models::{AuditLog, AuditLogView, PagedResult};
use crate::store::{AppState, log_views};
use crate::sorting::{desc_order, is_desc_order, arrange, page_window, page_in_range, page_bounds};
use crate::text::{owned, str_contains, has_sub};
use crate::clock::{DAY_NANOS, representable, now_nanos};
use crate::ids::new_id;

verus! {

/// The audit entry `id` written at `now`.
pub open spec fn audit_entry(
    id: u128,
    actor: Seq<char>,
    action: Seq<char>,
    target: Seq<char>,
    scope: Seq<char>,
    now: i128,
    result: Seq<char>,
) -> AuditLogView {
    AuditLogView { id, actor, action, target, scope, timestamp: now, result }
}

/// Entries older than this many days are pruned.
pub const AUDIT_RETENTION_DAYS: i128 = 30;

/// The instant before which entries are pruned when pruning at `now`.
pub open spec fn retention_cutoff(now: int) -> int {
    now - AUDIT_RETENTION_DAYS * DAY_NANOS
}

/// The entries that pruning at `now` keeps, in their order.
pub open spec fn retained_logs(s: Seq<AuditLog>, now: int) -> Seq<AuditLog> {
    s.filter(|l: AuditLog| l.timestamp > retention_cutoff(now))
}

/// Pruning the audit trail `old` into `new` at the instant `now` read from the
/// clock, with answer `pruned`: the instant is representable; pruning happens
/// exactly when its retention cutoff is representable too, and then keeps
/// `retained_logs`; otherwise the trail is unchanged.
pub open spec fn cleanup_now(old: Seq<AuditLog>, new: Seq<AuditLog>, now: i128, pruned: bool) -> bool {
    &&& representable(now as int)
    &&& pruned == representable(retention_cutoff(now as int))
    &&& pruned ==> new == retained_logs(old, now as int)
    &&& !pruned ==> new == old
}

/// A query of the audit trail.
pub struct AuditLogQuery {
    pub page: Option<u64>,
    pub page_size: Option<u64>,
    pub action: Option<String>,
    pub actor: Option<String>,
}

/// The entry matches the query's action and actor texts, where given.
pub open spec fn audit_selected(l: AuditLog, action: Option<Seq<char>>, actor: Option<Seq<char>>) -> bool {
    &&& (action matches Some(a) ==> has_sub(l.action@, a))
    &&& (actor matches Some(a) ==> has_sub(l.actor@, a))
}

/// The page number a query asks for (one when it names none).
pub open spec fn query_page(p: Option<u64>) -> u64 {
    match p { Some(v) => v, None => 1 }
}

/// The page size a query asks for, with its default and its cap.
pub open spec fn query_page_size(p: Option<u64>, default: u64, cap: u64) -> u64 {
    let v = match p { Some(v) => v, None => default };
    if v < cap { v } else { cap }
}

/// The page size a query asks for, with its default and its cap.
pub fn page_size_of(p: Option<u64>, default: u64, cap: u64) -> (r: u64)
    ensures
        r == query_page_size(p, default, cap),
{
    let v = match p { Some(v) => v, None => default };
    if v < cap { v } else { cap }
}

/// The view of an optional text.
pub open spec fn opt_view(o: Option<String>) -> Option<Seq<char>> {
    match o { Some(s) => Some(s@), None => None }
}

/// The timestamps of a list of audit entries.
pub open spec fn log_times(s: Seq<AuditLog>) -> Seq<i128> {
    s.map_values(|l: AuditLog| l.timestamp)
}

impl AppState {
    /// Records an audit entry with identifier `id`, written at `now`.
    pub fn log_audit_at(
        &mut self,
        actor: &str,
        action: &str,
        target: &str,
        scope: &str,
        result: &str,
        id: u128,
        now: i128,
    )
        ensures
            log_views(final(self).audit_logs@)
                == log_views(old(self).audit_logs@).push(audit_entry(id, actor@, action@, target@, scope@, now, result@)),
            final(self).resources == old(self).resources,
            final(self).resource_stats == old(self).resource_stats,
            final(self).nodes == old(self).nodes,
            final(self).resource_publishes == old(self).resource_publishes,
            final(self).preheat_tasks == old(self).preheat_tasks,
            final(self).preheat_queue == old(self).preheat_queue,
            final(self).purge_tasks == old(self).purge_tasks,
            final(self).delayed_purge_queue == old(self).delayed_purge_queue,
            final(self).request_history == old(self).request_history,
    {
        let entry = AuditLog {
            id,
            actor: owned(actor),
            action: owned(action),
            target: owned(target),
            scope: owned(scope),
            timestamp: now,
            result: owned(result),
        };
        self.audit_logs.push(entry);
        assert(log_views(self.audit_logs@) =~= log_views(old(self).audit_logs@).push(
            audit_entry(id, actor@, action@, target@, scope@, now, result@),
        ));
    }

    /// Records an audit entry with a fresh identifier, written now.
    pub fn log_audit(&mut self, actor: &str, action: &str, target: &str, scope: &str, result: &str)
        ensures
            exists|id: u128, now: i128|
                log_views(final(self).audit_logs@) == log_views(old(self).audit_logs@).push(
                    audit_entry(id, actor@, action@, target@, scope@, now, result@),
                ),
            final(self).resources == old(self).resources,
            final(self).resource_stats == old(self).resource_stats,
            final(self).nodes == old(self).nodes,
            final(self).resource_publishes == old(self).resource_publishes,
            final(self).preheat_tasks == old(self).preheat_tasks,
            final(self).preheat_queue == old(self).preheat_queue,
            final(self).purge_tasks == old(self).purge_tasks,
            final(self).delayed_purge_queue == old(self).delayed_purge_queue,
            final(self).request_history == old(self).request_history,
    {
        let id = new_id();
        let now = now_nanos();
        self.log_audit_at(actor, action, target, scope, result, id, now);
    }

    /// Drops the entries written at or before the retention cutoff of `now`;
    /// the others stay, in their order.
    pub fn cleanup_old_logs_at(&mut self, now: i128)
        requires
            representable(retention_cutoff(now as int)),
        ensures
            final(self).audit_logs@ == retained_logs(old(self).audit_logs@, now as int),
            final(self).resources == old(self).resources,
            final(self).resource_stats == old(self).resource_stats,
            final(self).nodes == old(self).nodes,
            final(self).resource_publishes == old(self).resource_publishes,
            final(self).preheat_tasks == old(self).preheat_tasks,
            final(self).preheat_queue == old(self).preheat_queue,
            final(self).purge_tasks == old(self).purge_tasks,
            final(self).delayed_purge_queue == old(self).delayed_purge_queue,
            final(self).request_history == old(self).request_history,
    {
        let cutoff: i128 = now - AUDIT_RETENTION_DAYS * DAY_NANOS;
        let ghost keep = |l: AuditLog| l.timestamp > retention_cutoff(now as int);
        let old_logs = &self.audit_logs;
        let mut kept: Vec<AuditLog> = Vec::new();
        let n = old_logs.len();
        let mut i: usize = 0;
        while i < n
            invariant
                n == old_logs@.len(),
                0 <= i <= n,
                kept@ == old_logs@.take(i as int).filter(keep),
                cutoff == retention_cutoff(now as int),
                keep == (|l: AuditLog| l.timestamp > retention_cutoff(now as int)),
            decreases n - i,
        {
            assert(old_logs@.take(i + 1) =~= old_logs@.take(i as int).push(old_logs@[i as int]));
            proof { old_logs@.take(i as int).lemma_filter_push(old_logs@[i as int], keep); }
            let l = &old_logs[i];
            assert(keep(*l) == (l.timestamp > cutoff));
            if l.timestamp > cutoff {
                kept.push(l.duplicate());
            }
            i += 1;
        }
        assert(old_logs@.take(n as int) =~= old_logs@);
        self.audit_logs = kept;
    }

    /// Prunes the audit trail now (see `cleanup_now`): at the instant read
    /// from the clock it prunes exactly when the retention cutoff of that
    /// instant is representable, and otherwise returns `false`, pruning nothing.
    pub fn cleanup_old_logs(&mut self) -> (pruned: bool)
        ensures
            exists|now: i128| #[trigger] cleanup_now(old(self).audit_logs@, final(self).audit_logs@, now, pruned),
            !pruned ==> final(self).audit_logs == old(self).audit_logs,
            old(self).wf() ==> final(self).wf(),
            final(self).same_but_logs(&*old(self)),
    {
        let now = now_nanos();
        if now < crate::clock::MIN_INSTANT + AUDIT_RETENTION_DAYS * DAY_NANOS {
            assert(cleanup_now(old(self).audit_logs@, self.audit_logs@, now, false));
            return false;
        }
        self.cleanup_old_logs_at(now);
        assert(cleanup_now(old(self).audit_logs@, self.audit_logs@, now, true));
        true
    }

    /// The entries the query selects, newest first, cut to the page it asks for
    /// (50 entries by default, at most 200).
    pub fn list_audit_logs(&self, query: &AuditLogQuery) -> (r: PagedResult<AuditLog>)
        requires
            page_in_range(query_page(query.page), query_page_size(query.page_size, 50, 200)),
        ensures
            ({
                let f = self.audit_logs@.filter(
                    |l: AuditLog| audit_selected(l, opt_view(query.action), opt_view(query.actor)),
                );
                &&& r.total == f.len()
                &&& r.page == query_page(query.page)
                &&& r.page_size == query_page_size(query.page_size, 50, 200)
                &&& exists|order: Seq<usize>| is_desc_order(order, log_times(f))
                    && log_views(r.items@) == page_window(log_views(arrange(f, order)), r.page, r.page_size)
            }),
    {
        let page = match query.page { Some(p) => p, None => 1 };
        let page_size = page_size_of(query.page_size, 50, 200);
        let ghost pred = |l: AuditLog| audit_selected(l, opt_view(query.action), opt_view(query.actor));
        let mut f: Vec<AuditLog> = Vec::new();
        let n = self.audit_logs.len();
        let mut i: usize = 0;
        while i < n
            invariant
                n == self.audit_logs@.len(),
                0 <= i <= n,
                pred == (|l: AuditLog| audit_selected(l, opt_view(query.action), opt_view(query.actor))),
                log_views(f@) == log_views(self.audit_logs@.take(i as int).filter(pred)),
                f@.len() == self.audit_logs@.take(i as int).filter(pred).len(),
                forall|j: int| 0 <= j < f@.len() ==> f@[j].timestamp == #[trigger] self.audit_logs@.take(i as int).filter(pred)[j].timestamp,
            decreases n - i,
        {
            let l = &self.audit_logs[i];
            assert(self.audit_logs@.take(i + 1) =~= self.audit_logs@.take(i as int).push(*l));
            proof { self.audit_logs@.take(i as int).lemma_filter_push(*l, pred); }
            let ok_action = match &query.action {
                Some(a) => str_contains(l.action.as_str(), a.as_str()),
                None => true,
            };
            let ok_actor = match &query.actor {
                Some(a) => str_contains(l.actor.as_str(), a.as_str()),
                None => true,
            };
            assert(ok_action == (opt_view(query.action) matches Some(a) ==> has_sub(l.action@, a)));
            assert(ok_actor == (opt_view(query.actor) matches Some(a) ==> has_sub(l.actor@, a)));
            assert(pred(*l) == (ok_action && ok_actor));
            if ok_action && ok_actor {
                let ghost before = f@;
                f.push(l.duplicate());
                assert(log_views(f@) =~= log_views(before).push(l@));
            } else {
                assert(!pred(*l));
            }
            i += 1;
        }
        assert(self.audit_logs@.take(n as int) =~= self.audit_logs@);
        let ghost fs = self.audit_logs@.filter(pred);
        let mut keys: Vec<i128> = Vec::new();
        let mut k: usize = 0;
        while k < f.len()
            invariant
                0 <= k <= f@.len(),
                f@.len() == fs.len(),
                forall|j: int| 0 <= j < f@.len() ==> f@[j].timestamp == #[trigger] fs[j].timestamp,
                keys@ == log_times(fs).take(k as int),
            decreases f@.len() - k,
        {
            keys.push(f[k].timestamp);
            assert(keys@ =~= log_times(fs).take(k + 1));
            k += 1;
        }
        assert(keys@ =~= log_times(fs));
        let order = desc_order(&keys);
        let (lo, hi) = page_bounds(f.len(), page, page_size);
        let mut items: Vec<AuditLog> = Vec::new();
        let mut j: usize = lo;
        while j < hi
            invariant
                lo <= j <= hi <= f@.len(),
                is_desc_order(order@, log_times(fs)),
                f@.len() == fs.len(),
                log_views(f@) == log_views(fs),
                log_views(items@) == log_views(arrange(fs, order@)).subrange(lo as int, j as int),
            decreases hi - j,
        {
            let pos = order[j];
            let ghost before = items@;
            assert(log_views(f@)[pos as int] == log_views(fs)[pos as int]);
            assert(arrange(fs, order@)[j as int] == fs[pos as int]);
            assert(log_views(arrange(fs, order@))[j as int] == fs[pos as int]@);
            items.push(f[pos].duplicate());
            assert(log_views(items@) =~= log_views(before).push(f@[pos as int]@));
            assert(log_views(items@) =~= log_views(arrange(fs, order@)).subrange(lo as int, j + 1));
            j += 1;
        }
        let total = f.len() as u64;
        PagedResult { items, total, page, page_size }
    }
}

} // verus!
