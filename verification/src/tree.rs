//! The directory tree of the stored files, built from their storage paths.
//!
//! The tree is held as a list of entries, the root first; an entry lists its
//! children by their positions, which always come after its own.
use vstd::prelude::*;
use crate::models::{Resource, texts};
use crate::store::AppState;
use crate::validation::split_slash;
use crate::sorting::{text_order, is_text_order, arrange};
use crate::text::{owned, concat, str_equal, chars_of};

verus! {

/// An entry of the directory tree: a directory, or a file with its resource.
pub struct DirEntry {
    pub name: String,
    pub path: String,
    pub is_dir: bool,
    pub children: Vec<usize>,
    pub resource_id: Option<u128>,
}

/// The mathematical value of a [`DirEntry`].
pub ghost struct DirEntryView {
    pub name: Seq<char>,
    pub path: Seq<char>,
    pub is_dir: bool,
    pub children: Seq<usize>,
    pub resource_id: Option<u128>,
}

impl View for DirEntry {
    type V = DirEntryView;

    open spec fn view(&self) -> DirEntryView {
        DirEntryView {
            name: self.name@,
            path: self.path@,
            is_dir: self.is_dir,
            children: self.children@,
            resource_id: self.resource_id,
        }
    }
}

/// The directory tree: its entries, the root first.
pub struct DirTree {
    pub entries: Vec<DirEntry>,
}

/// The views of a list of entries.
pub open spec fn entry_views(s: Seq<DirEntry>) -> Seq<DirEntryView> {
    s.map_values(|e: DirEntry| e@)
}

/// The root of every tree.
pub open spec fn tree_root() -> DirEntryView {
    DirEntryView { name: "root"@, path: "/"@, is_dir: true, children: Seq::empty(), resource_id: None }
}

/// The tree has a root, and every child comes after its parent and is an entry.
pub open spec fn tree_wf(t: Seq<DirEntryView>) -> bool {
    &&& t.len() >= 1
    &&& forall|i: int, j: int| 0 <= i < t.len() && 0 <= j < t[i].children.len()
        ==> i < #[trigger] t[i].children[j] < t.len()
}

/// Entry `c` is a directory (`dir`) or a file named `name`.
pub open spec fn child_match(t: Seq<DirEntryView>, c: int, name: Seq<char>, dir: bool) -> bool {
    t[c].is_dir == dir && t[c].name == name
}

/// Entry `at` has such a child.
pub open spec fn has_child(t: Seq<DirEntryView>, at: int, name: Seq<char>, dir: bool) -> bool {
    exists|j: int| 0 <= j < t[at].children.len() && child_match(t, #[trigger] t[at].children[j] as int, name, dir)
}

/// `j` is the first child of entry `at` that matches.
pub open spec fn first_child_at(t: Seq<DirEntryView>, at: int, name: Seq<char>, dir: bool, j: int) -> bool {
    &&& 0 <= j < t[at].children.len()
    &&& child_match(t, t[at].children[j] as int, name, dir)
    &&& forall|m: int| 0 <= m < j ==> !child_match(t, #[trigger] t[at].children[m] as int, name, dir)
}

/// The first child of entry `at` that matches (meaningful when there is one).
pub open spec fn child_of(t: Seq<DirEntryView>, at: int, name: Seq<char>, dir: bool) -> int {
    t[at].children[choose|j: int| first_child_at(t, at, name, dir, j)] as int
}

/// The tree with `e` added as the last child of entry `at`.
pub open spec fn append_child(t: Seq<DirEntryView>, at: int, e: DirEntryView) -> Seq<DirEntryView> {
    t.update(at, DirEntryView { children: t[at].children.push(t.len() as usize), ..t[at] }).push(e)
}

/// The path of `part` under the directory at `path`.
pub open spec fn joined_path(path: Seq<char>, part: Seq<char>) -> Seq<char> {
    if path == "/"@ { "/"@ + part } else { path + "/"@ + part }
}

/// The tree after placing the pieces `parts[k..]` of a file's path under
/// entry `at`, at `path`: directories are found or added in turn, and the
/// file is added under the last one unless a file of that name is there.
pub open spec fn insert_parts(
    t: Seq<DirEntryView>,
    at: int,
    parts: Seq<Seq<char>>,
    k: int,
    path: Seq<char>,
    rid: u128,
) -> Seq<DirEntryView>
    decreases parts.len() - k,
{
    if k < 0 || k >= parts.len() {
        t
    } else {
        let part = parts[k];
        let next = joined_path(path, part);
        if k == parts.len() - 1 {
            if has_child(t, at, part, false) {
                t
            } else {
                append_child(t, at, DirEntryView { name: part, path: next, is_dir: false, children: Seq::empty(), resource_id: Some(rid) })
            }
        } else if has_child(t, at, part, true) {
            insert_parts(t, child_of(t, at, part, true), parts, k + 1, next, rid)
        } else {
            let t2 = append_child(t, at, DirEntryView { name: part, path: next, is_dir: true, children: Seq::empty(), resource_id: None });
            insert_parts(t2, t.len() as int, parts, k + 1, next, rid)
        }
    }
}

/// The non-empty pieces of a path between its '/' separators.
pub open spec fn path_parts(p: Seq<char>) -> Seq<Seq<char>> {
    split_slash(p).filter(|s: Seq<char>| s.len() > 0)
}

/// The tree of the files `items` (path, resource), placed in turn under the root.
pub open spec fn tree_of(items: Seq<(Seq<char>, u128)>) -> Seq<DirEntryView>
    decreases items.len(),
{
    if items.len() == 0 {
        seq![tree_root()]
    } else {
        insert_parts(tree_of(items.drop_last()), 0, path_parts(items.last().0), 0, "/"@, items.last().1)
    }
}

/// The key an entry is ordered by among its siblings: directories first, then by name.
pub open spec fn child_key(e: DirEntryView) -> Seq<char> {
    (if e.is_dir { seq!['0'] } else { seq!['1'] }) + e.name
}

/// The keys of the children `cs`.
pub open spec fn child_keys(t: Seq<DirEntryView>, cs: Seq<usize>) -> Seq<Seq<char>> {
    cs.map_values(|c: usize| child_key(t[c as int]))
}

/// `u` is `t` with the children of every entry ordered: directories first,
/// then by name (equal keys keep their order).
pub open spec fn sorted_from(u: Seq<DirEntryView>, t: Seq<DirEntryView>) -> bool {
    exists|orders: Seq<Seq<usize>>| #[trigger] sorted_with(u, t, orders)
}

/// `u` is `t` with the children of entry `i` in the order `orders[i]`, which
/// puts directories first, then orders by name.
pub open spec fn sorted_with(u: Seq<DirEntryView>, t: Seq<DirEntryView>, orders: Seq<Seq<usize>>) -> bool {
    &&& u.len() == t.len()
    &&& orders.len() == t.len()
    &&& forall|i: int| 0 <= i < t.len() ==> #[trigger] entry_sorted(u[i], t, i, orders[i])
}

/// `e` is entry `i` of `t` with its children in the order `order`, which
/// puts directories first, then orders by name.
pub open spec fn entry_sorted(e: DirEntryView, t: Seq<DirEntryView>, i: int, order: Seq<usize>) -> bool {
    &&& is_text_order(order, child_keys(t, t[i].children))
    &&& e == DirEntryView { children: arrange(t[i].children, order), ..t[i] }
}

/// The storage paths of a list of resources.
pub open spec fn storage_paths(s: Seq<Resource>) -> Seq<Seq<char>> {
    s.map_values(|r: Resource| r.storage_path@)
}

/// The (path, resource) items of a list of resources.
pub open spec fn path_items(s: Seq<Resource>) -> Seq<(Seq<char>, u128)> {
    s.map_values(|r: Resource| (r.storage_path@, r.id))
}

/// Adding a child keeps the tree well formed.
proof fn lemma_append_wf(t: Seq<DirEntryView>, at: int, e: DirEntryView)
    requires
        tree_wf(t),
        0 <= at < t.len(),
        t.len() <= usize::MAX,
        e.children.len() == 0,
    ensures
        tree_wf(append_child(t, at, e)),
        append_child(t, at, e).len() == t.len() + 1,
{
    let u = append_child(t, at, e);
    assert forall|i: int, j: int| 0 <= i < u.len() && 0 <= j < u[i].children.len()
        implies i < #[trigger] u[i].children[j] < u.len() by {
        if i == at {
            if j < t[at].children.len() {
                assert(u[i].children[j] == t[at].children[j]);
            } else {
                assert(u[i].children[j] == t.len() as usize);
            }
        } else if i < t.len() {
            assert(u[i] == t[i]);
        }
    }
}

/// There is only one first matching child.
proof fn lemma_first_child_unique(t: Seq<DirEntryView>, at: int, name: Seq<char>, dir: bool, j: int)
    requires
        first_child_at(t, at, name, dir, j),
    ensures
        child_of(t, at, name, dir) == t[at].children[j] as int,
        has_child(t, at, name, dir),
{
    let k = choose|k: int| first_child_at(t, at, name, dir, k);
    if k < j {
        assert(!child_match(t, t[at].children[k] as int, name, dir));
    } else if k > j {
        assert(!child_match(t, t[at].children[j] as int, name, dir));
    }
}

impl DirTree {
    /// The first child of entry `at` that is a directory (`dir`) or a file
    /// named `name`, as its position in the children, if any.
    fn find_child(&self, at: usize, name: &str, dir: bool) -> (r: Option<usize>)
        requires
            tree_wf(entry_views(self.entries@)),
            at < self.entries@.len(),
        ensures
            match r {
                Some(j) => first_child_at(entry_views(self.entries@), at as int, name@, dir, j as int),
                None => !has_child(entry_views(self.entries@), at as int, name@, dir),
            },
    {
        let ghost t = entry_views(self.entries@);
        let n = self.entries[at].children.len();
        let mut j: usize = 0;
        while j < n
            invariant
                t == entry_views(self.entries@),
                tree_wf(t),
                at < self.entries@.len(),
                n == t[at as int].children.len(),
                0 <= j <= n,
                forall|m: int| 0 <= m < j ==> !child_match(t, #[trigger] t[at as int].children[m] as int, name@, dir),
            decreases n - j,
        {
            let c = self.entries[at].children[j];
            assert(t[at as int].children[j as int] == c);
            assert(c < t.len());
            let e = &self.entries[c];
            if e.is_dir == dir && str_equal(e.name.as_str(), name) {
                return Some(j);
            }
            j += 1;
        }
        None
    }

    /// Adds entry `e`, without children, as the last child of entry `at`;
    /// returns its position.
    fn add_child(&mut self, at: usize, e: DirEntry) -> (pos: usize)
        requires
            tree_wf(entry_views(old(self).entries@)),
            at < old(self).entries@.len(),
            e.children@.len() == 0,
        ensures
            entry_views(final(self).entries@) == append_child(entry_views(old(self).entries@), at as int, e@),
            tree_wf(entry_views(final(self).entries@)),
            pos == old(self).entries@.len(),
    {
        let ghost t = entry_views(self.entries@);
        let pos = self.entries.len();
        proof { lemma_append_wf(t, at as int, e@); }
        let old_entry = &self.entries[at];
        let mut children: Vec<usize> = Vec::new();
        let mut j: usize = 0;
        while j < old_entry.children.len()
            invariant
                0 <= j <= old_entry.children@.len(),
                children@ == old_entry.children@.take(j as int),
            decreases old_entry.children@.len() - j,
        {
            children.push(old_entry.children[j]);
            assert(children@ =~= old_entry.children@.take(j + 1));
            j += 1;
        }
        assert(children@ =~= old_entry.children@);
        children.push(pos);
        let updated = DirEntry {
            name: old_entry.name.clone(),
            path: old_entry.path.clone(),
            is_dir: old_entry.is_dir,
            children,
            resource_id: old_entry.resource_id,
        };
        self.entries.set(at, updated);
        self.entries.push(e);
        assert(entry_views(self.entries@) =~= append_child(t, at as int, e@));
        pos
    }

    /// Places a file with resource `rid` at the path made of the pieces
    /// `parts` (see `insert_parts`).
    pub fn insert_path(&mut self, parts: &Vec<String>, rid: u128)
        requires
            tree_wf(entry_views(old(self).entries@)),
        ensures
            tree_wf(entry_views(final(self).entries@)),
            entry_views(final(self).entries@) == insert_parts(entry_views(old(self).entries@), 0, texts(parts@), 0, "/"@, rid),
    {
        let ghost ps = texts(parts@);
        let ghost target = insert_parts(entry_views(self.entries@), 0, ps, 0, "/"@, rid);
        let mut cur: usize = 0;
        let mut cur_path = owned("/");
        let mut k: usize = 0;
        let n = parts.len();
        while k < n
            invariant
                ps == texts(parts@),
                n == parts@.len(),
                0 <= k <= n,
                tree_wf(entry_views(self.entries@)),
                cur < self.entries@.len(),
                insert_parts(entry_views(self.entries@), cur as int, ps, k as int, cur_path@, rid) == target,
            decreases n - k,
        {
            let ghost t = entry_views(self.entries@);
            let part = parts[k].as_str();
            assert(part@ == ps[k as int]);
            let next = if str_equal(cur_path.as_str(), "/") {
                concat("/", part)
            } else {
                let a = concat(cur_path.as_str(), "/");
                concat(a.as_str(), part)
            };
            assert(next@ == joined_path(cur_path@, part@));
            if k == n - 1 {
                match self.find_child(cur, part, false) {
                    Some(j) => {
                        proof { lemma_first_child_unique(t, cur as int, part@, false, j as int); }
                    },
                    None => {
                        let e = DirEntry { name: owned(part), path: next, is_dir: false, children: Vec::new(), resource_id: Some(rid) };
                        assert(e@ == DirEntryView { name: part@, path: joined_path(cur_path@, part@), is_dir: false, children: Seq::empty(), resource_id: Some(rid) });
                        self.add_child(cur, e);
                    },
                }
                k = n;
            } else {
                match self.find_child(cur, part, true) {
                    Some(j) => {
                        proof { lemma_first_child_unique(t, cur as int, part@, true, j as int); }
                        let c = self.entries[cur].children[j];
                        assert(t[cur as int].children[j as int] == c);
                        cur = c;
                    },
                    None => {
                        let e = DirEntry { name: owned(part), path: next.clone(), is_dir: true, children: Vec::new(), resource_id: None };
                        assert(e@ == DirEntryView { name: part@, path: joined_path(cur_path@, part@), is_dir: true, children: Seq::empty(), resource_id: None });
                        cur = self.add_child(cur, e);
                    },
                }
                cur_path = next;
                k += 1;
            }
        }
    }
}

/// The non-empty pieces of `path` between its '/' separators.
pub fn split_nonempty(path: &str) -> (r: Vec<String>)
    ensures
        texts(r@) == path_parts(path@),
{
    let cs = chars_of(path);
    let ghost s = path@;
    let ghost keep = |p: Seq<char>| p.len() > 0;
    let mut out: Vec<String> = Vec::new();
    let mut cur: Vec<char> = Vec::new();
    let mut i: usize = 0;
    while i < cs.len()
        invariant
            cs@ == s,
            0 <= i <= s.len(),
            keep == (|p: Seq<char>| p.len() > 0),
            split_slash(s.take(i as int)).len() >= 1,
            cur@ == split_slash(s.take(i as int)).last(),
            texts(out@) == split_slash(s.take(i as int)).drop_last().filter(keep),
        decreases s.len() - i,
    {
        let ghost segs = split_slash(s.take(i as int));
        proof {
            assert(s.take(i + 1).drop_last() =~= s.take(i as int));
            crate::validation::lemma_split_nonempty(s.take(i + 1));
        }
        let c = cs[i];
        if c == '/' {
            proof {
                assert(split_slash(s.take(i + 1)) == segs.push(Seq::empty()));
                assert(segs.push(Seq::empty()).drop_last() =~= segs);
                assert(segs =~= segs.drop_last().push(segs.last()));
                segs.drop_last().lemma_filter_push(segs.last(), keep);
            }
            if cur.len() > 0 {
                let ghost before = out@;
                out.push(crate::text::string_from_chars(&cur));
                assert(texts(out@) =~= texts(before).push(cur@));
            }
            cur = Vec::new();
        } else {
            proof {
                assert(split_slash(s.take(i + 1)) == segs.update(segs.len() - 1, segs.last().push(c)));
                assert(segs.update(segs.len() - 1, segs.last().push(c)).drop_last() =~= segs.drop_last());
            }
            cur.push(c);
        }
        i += 1;
    }
    proof {
        assert(s.take(s.len() as int) =~= s);
    }
    let ghost segs = split_slash(s);
    proof {
        assert(segs =~= segs.drop_last().push(segs.last()));
        segs.drop_last().lemma_filter_push(segs.last(), keep);
    }
    if cur.len() > 0 {
        let ghost before = out@;
        out.push(crate::text::string_from_chars(&cur));
        assert(texts(out@) =~= texts(before).push(cur@));
    }
    out
}

/// The key of entry `e` among its siblings (see `child_key`).
fn child_key_chars(e: &DirEntry) -> (k: Vec<char>)
    ensures
        k@ == child_key(e@),
{
    let mut k: Vec<char> = Vec::new();
    k.push(if e.is_dir { '0' } else { '1' });
    let name = chars_of(e.name.as_str());
    let mut i: usize = 0;
    while i < name.len()
        invariant
            0 <= i <= name@.len(),
            name@ == e.name@,
            k@ == (if e.is_dir { seq!['0'] } else { seq!['1'] }) + name@.take(i as int),
        decreases name@.len() - i,
    {
        k.push(name[i]);
        assert(name@.take(i + 1) =~= name@.take(i as int).push(name@[i as int]));
        i += 1;
    }
    assert(name@.take(name@.len() as int) =~= name@);
    k
}

impl DirTree {
    /// The tree with the children of every entry ordered: directories first,
    /// then by name (see `sorted_from`).
    pub fn sorted(&self) -> (r: DirTree)
        requires
            tree_wf(entry_views(self.entries@)),
        ensures
            sorted_from(entry_views(r.entries@), entry_views(self.entries@)),
            tree_wf(entry_views(r.entries@)),
    {
        let ghost t = entry_views(self.entries@);
        let mut out: Vec<DirEntry> = Vec::new();
        let ghost mut orders: Seq<Seq<usize>> = Seq::empty();
        let mut i: usize = 0;
        while i < self.entries.len()
            invariant
                t == entry_views(self.entries@),
                tree_wf(t),
                0 <= i <= t.len(),
                out@.len() == i,
                orders.len() == i,
                forall|m: int| 0 <= m < i ==> #[trigger] entry_sorted(out@[m]@, t, m, orders[m]),
                forall|m: int, j: int| 0 <= m < i && 0 <= j < out@[m]@.children.len()
                    ==> m < #[trigger] out@[m]@.children[j] < t.len(),
            decreases t.len() - i,
        {
            let e = &self.entries[i];
            let mut keys: Vec<Vec<char>> = Vec::new();
            let mut j: usize = 0;
            while j < e.children.len()
                invariant
                    t == entry_views(self.entries@),
                    tree_wf(t),
                    i < t.len(),
                    *e == self.entries@[i as int],
                    0 <= j <= e.children@.len(),
                    keys@.map_values(|k: Vec<char>| k@) == child_keys(t, e.children@).take(j as int),
                decreases e.children@.len() - j,
            {
                let c = e.children[j];
                assert(t[i as int].children[j as int] == c);
                let k = child_key_chars(&self.entries[c]);
                let ghost before = keys@;
                keys.push(k);
                assert(keys@.map_values(|k: Vec<char>| k@) =~= before.map_values(|k: Vec<char>| k@).push(k@));
                assert(keys@.map_values(|k: Vec<char>| k@) =~= child_keys(t, e.children@).take(j + 1));
                j += 1;
            }
            assert(child_keys(t, e.children@).take(e.children@.len() as int) =~= child_keys(t, e.children@));
            let order = text_order(&keys);
            let mut children: Vec<usize> = Vec::new();
            let mut m: usize = 0;
            while m < order.len()
                invariant
                    0 <= m <= order@.len(),
                    order@.len() == e.children@.len(),
                    is_text_order(order@, child_keys(t, e.children@)),
                    children@ == arrange(e.children@, order@).take(m as int),
                decreases order@.len() - m,
            {
                children.push(e.children[order[m]]);
                assert(children@ =~= arrange(e.children@, order@).take(m + 1));
                m += 1;
            }
            assert(children@ =~= arrange(e.children@, order@));
            let entry = DirEntry {
                name: e.name.clone(),
                path: e.path.clone(),
                is_dir: e.is_dir,
                children,
                resource_id: e.resource_id,
            };
            assert(entry@ == DirEntryView { children: arrange(t[i as int].children, order@), ..t[i as int] });
            assert(entry_sorted(entry@, t, i as int, order@));
            proof {
                assert forall|j: int| 0 <= j < entry@.children.len() implies i < #[trigger] entry@.children[j] < t.len() by {
                    assert(entry@.children[j] == t[i as int].children[order@[j] as int]);
                }
            }
            let ghost before = out@;
            let ghost before_orders = orders;
            out.push(entry);
            proof {
                orders = orders.push(order@);
                assert forall|q: int| 0 <= q < i + 1 implies #[trigger] entry_sorted(out@[q]@, t, q, orders[q]) by {
                    if q < i {
                        assert(out@[q] == before[q]);
                        assert(orders[q] == before_orders[q]);
                    } else {
                        assert(out@[q] == entry);
                    }
                }
                assert forall|q: int, j: int| 0 <= q < i + 1 && 0 <= j < out@[q]@.children.len()
                    implies q < #[trigger] out@[q]@.children[j] < t.len() by {
                    if q < i {
                        assert(out@[q] == before[q]);
                    }
                }
            }
            i += 1;
        }
        let r = DirTree { entries: out };
        proof {
            let u = entry_views(r.entries@);
            assert forall|q: int| 0 <= q < t.len() implies #[trigger] entry_sorted(u[q], t, q, orders[q]) by {
                assert(u[q] == out@[q]@);
            }
            assert forall|q: int, j: int| 0 <= q < u.len() && 0 <= j < u[q].children.len()
                implies q < #[trigger] u[q].children[j] < u.len() by {
                assert(u[q] == out@[q]@);
            }
            assert(u.len() == t.len());
            assert(sorted_with(u, t, orders));
        }
        r
    }
}

impl AppState {
    /// The directory tree of the stored files: the resources are taken in the
    /// order of their storage paths (equal paths in the order stored), each
    /// placed under the root by the non-empty pieces of its path, and the
    /// children of every entry are then ordered, directories first, then by name.
    pub fn get_directory_tree(&self) -> (r: DirTree)
        ensures
            tree_wf(entry_views(r.entries@)),
            exists|order: Seq<usize>| #[trigger] is_text_order(order, storage_paths(self.resources@))
                && sorted_from(entry_views(r.entries@), tree_of(path_items(arrange(self.resources@, order)))),
    {
        let mut keys: Vec<Vec<char>> = Vec::new();
        let mut i: usize = 0;
        while i < self.resources.len()
            invariant
                0 <= i <= self.resources@.len(),
                keys@.map_values(|k: Vec<char>| k@) == storage_paths(self.resources@).take(i as int),
            decreases self.resources@.len() - i,
        {
            let k = chars_of(self.resources[i].storage_path.as_str());
            let ghost before = keys@;
            keys.push(k);
            assert(keys@.map_values(|k: Vec<char>| k@) =~= before.map_values(|k: Vec<char>| k@).push(k@));
            assert(keys@.map_values(|k: Vec<char>| k@) =~= storage_paths(self.resources@).take(i + 1));
            i += 1;
        }
        assert(storage_paths(self.resources@).take(self.resources@.len() as int) =~= storage_paths(self.resources@));
        let order = text_order(&keys);
        let ghost items = path_items(arrange(self.resources@, order@));
        let root = DirEntry { name: owned("root"), path: owned("/"), is_dir: true, children: Vec::new(), resource_id: None };
        let mut tree = DirTree { entries: Vec::new() };
        tree.entries.push(root);
        assert(entry_views(tree.entries@) =~= seq![tree_root()]);
        assert(items.take(0) =~= Seq::<(Seq<char>, u128)>::empty());
        let mut j: usize = 0;
        while j < order.len()
            invariant
                is_text_order(order@, storage_paths(self.resources@)),
                items == path_items(arrange(self.resources@, order@)),
                0 <= j <= order@.len(),
                tree_wf(entry_views(tree.entries@)),
                entry_views(tree.entries@) == tree_of(items.take(j as int)),
            decreases order@.len() - j,
        {
            let res = &self.resources[order[j]];
            let parts = split_nonempty(res.storage_path.as_str());
            proof {
                assert(items.take(j + 1).drop_last() =~= items.take(j as int));
                assert(items.take(j + 1).last() == (res.storage_path@, res.id));
            }
            tree.insert_path(&parts, res.id);
            j += 1;
        }
        assert(items.take(order@.len() as int) =~= items);
        tree.sorted()
    }
}

} // verus!
