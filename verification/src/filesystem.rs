//! What a scan knows of the directory tree, and how it is read back.
//!
//! A scan groups every entry it meets under its parent directory
//! ([`ChildIndex`]); directories are listed with a placeholder size and get
//! their recursive size from the running totals when the index is published
//! ([`backfill_directory_sizes`]). The read side ([`get_directory_contents`])
//! serves one directory's children, largest first.

use crate::paths::{paths_equal, same_path};
pub use vstd::hash_map::StringHashMap;
use vstd::prelude::*;

verus! {

/// The kind of a directory entry.
#[derive(Clone, Copy, PartialEq, Eq, Debug, Structural)]
pub enum EntryType {
    File,
    Directory,
    Symlink,
}

/// One entry of a directory: its full path, its kind, and its size in bytes
/// (for a directory, the recursive size of everything below it).
#[derive(Debug)]
pub struct FsEntry {
    pub path: String,
    pub entry_type: EntryType,
    pub size_bytes: u64,
}

impl FsEntry {
    /// An identical copy of this entry.
    pub fn duplicate(&self) -> (r: FsEntry)
        ensures
            r == *self,
    {
        FsEntry { path: self.path.clone(), entry_type: self.entry_type, size_bytes: self.size_bytes }
    }
}

/// The messages a scan sends to whoever watches it. The lifecycle messages
/// carry the generation of the scan that sends them.
#[derive(Debug)]
pub enum ScanMessage {
    Entries(Vec<FsEntry>),
    Start { total_bytes: u64, generation: u64 },
    Progress { scanned_files: u64, scanned_bytes: u64, generation: u64 },
    Complete { generation: u64 },
}

/// An entry as published: a directory whose path has a running total takes
/// that total as its size; every other entry is unchanged.
pub open spec fn backfilled_entry(e: FsEntry, sizes: Map<Seq<char>, u64>) -> FsEntry {
    if e.entry_type == EntryType::Directory && sizes.contains_key(e.path@) {
        FsEntry { path: e.path, entry_type: e.entry_type, size_bytes: sizes[e.path@] }
    } else {
        e
    }
}

/// A directory's children as published.
pub open spec fn backfilled_group(g: Seq<FsEntry>, sizes: Map<Seq<char>, u64>) -> Seq<FsEntry> {
    g.map_values(|e: FsEntry| backfilled_entry(e, sizes))
}

/// A whole index as published.
pub open spec fn backfilled_index(
    m: Map<Seq<char>, Seq<FsEntry>>,
    sizes: Map<Seq<char>, u64>,
) -> Map<Seq<char>, Seq<FsEntry>> {
    m.map_values(|g: Seq<FsEntry>| backfilled_group(g, sizes))
}

/// The children recorded under `key`, or none.
pub open spec fn children_or_empty(m: Map<Seq<char>, Seq<FsEntry>>, key: Seq<char>) -> Seq<FsEntry> {
    if m.contains_key(key) {
        m[key]
    } else {
        Seq::empty()
    }
}

/// The storage of a [`ChildIndex`]: a slot table from parent path to
/// position, and the parent paths and their children by position.
struct IndexParts {
    slots: StringHashMap<usize>,
    keys: Vec<String>,
    groups: Vec<Vec<FsEntry>>,
}

impl View for IndexParts {
    type V = Map<Seq<char>, Seq<FsEntry>>;

    closed spec fn view(&self) -> Map<Seq<char>, Seq<FsEntry>> {
        Map::new(
            |k: Seq<char>| self.slots@.contains_key(k),
            |k: Seq<char>| self.groups@[self.slots@[k] as int]@,
        )
    }
}

impl IndexParts {
    /// The index's internal consistency: every parent path has exactly one
    /// slot, and the slot table and the key list agree.
    pub closed spec fn wf(&self) -> bool {
        &&& self.keys@.len() == self.groups@.len()
        &&& forall|i: int|
            0 <= i < self.keys@.len() ==> self.slots@.contains_key(#[trigger] self.keys@[i]@)
                && self.slots@[self.keys@[i]@] == i
        &&& forall|k: Seq<char>|
            #[trigger] self.slots@.contains_key(k) ==> (self.slots@[k] as int) < self.keys@.len()
                && self.keys@[self.slots@[k] as int]@ == k
    }

    /// An empty index.
    pub fn new() -> (r: IndexParts)
        ensures
            r.wf(),
            r@ == Map::<Seq<char>, Seq<FsEntry>>::empty(),
    {
        let r = IndexParts { slots: StringHashMap::new(), keys: Vec::new(), groups: Vec::new() };
        assert(r@ =~= Map::<Seq<char>, Seq<FsEntry>>::empty());
        r
    }

    /// Records `entry` as the last child of `parent`.
    pub fn push_child(&mut self, parent: String, entry: FsEntry)
        requires
            old(self).wf(),
        ensures
            final(self).wf(),
            final(self)@ == old(self)@.insert(
                parent@,
                children_or_empty(old(self)@, parent@).push(entry),
            ),
    {
        let found: Option<usize> = match self.slots.get(parent.as_str()) {
            Some(slot) => Some(*slot),
            None => None,
        };
        let ghost old_view = self@;
        match found {
            Some(i) => {
                proof {
                    assert(old_view.contains_key(parent@));
                }
                self.groups[i].push(entry);
                proof {
                    assert(self@ =~= old_view.insert(
                        parent@,
                        children_or_empty(old_view, parent@).push(entry),
                    ));
                }
            },
            None => {
                let i = self.keys.len();
                self.slots.insert(parent.clone(), i);
                self.keys.push(parent);
                let mut group: Vec<FsEntry> = Vec::new();
                group.push(entry);
                self.groups.push(group);
                proof {
                    assert forall|k: Seq<char>| #[trigger] self.slots@.contains_key(k) implies (
                    self.slots@[k] as int) < self.keys@.len() && self.keys@[self.slots@[k] as int]@
                        == k by {
                        if k != parent@ {
                            assert(old(self).slots@.contains_key(k));
                        }
                    }
                    assert(children_or_empty(old_view, parent@) =~= Seq::<FsEntry>::empty());
                    assert(self@ =~= old_view.insert(
                        parent@,
                        children_or_empty(old_view, parent@).push(entry),
                    ));
                }
            },
        }
    }
}


impl IndexParts {
    /// The children recorded under `key`, if any.
    pub fn children_of(&self, key: &str) -> (r: Option<&Vec<FsEntry>>)
        requires
            self.wf(),
        ensures
            match r {
                Some(g) => self@.contains_key(key@) && g@ == self@[key@],
                None => !self@.contains_key(key@),
            },
    {
        match self.slots.get(key) {
            Some(slot) => Some(&self.groups[*slot]),
            None => None,
        }
    }

    /// Replaces whatever was recorded under `key` by `group`.
    pub fn set_children(&mut self, key: String, group: Vec<FsEntry>)
        requires
            old(self).wf(),
        ensures
            final(self).wf(),
            final(self)@ == old(self)@.insert(key@, group@),
    {
        let found: Option<usize> = match self.slots.get(key.as_str()) {
            Some(slot) => Some(*slot),
            None => None,
        };
        let ghost old_view = self@;
        let ghost new_group = group@;
        match found {
            Some(i) => {
                self.groups.set(i, group);
                proof {
                    assert(self@ =~= old_view.insert(key@, new_group));
                }
            },
            None => {
                let i = self.keys.len();
                self.slots.insert(key.clone(), i);
                self.keys.push(key);
                self.groups.push(group);
                proof {
                    assert forall|k: Seq<char>| #[trigger] self.slots@.contains_key(k) implies (
                    self.slots@[k] as int) < self.keys@.len() && self.keys@[self.slots@[k] as int]@
                        == k by {
                        if k != self.keys@[i as int]@ {
                            assert(old(self).slots@.contains_key(k));
                        }
                    }
                    assert(self@ =~= old_view.insert(self.keys@[i as int]@, new_group));
                }
            },
        }
    }

    /// Publishes this index into `results` with every directory's size taken
    /// from `dir_sizes`: each parent path of this index gets its backfilled
    /// children in `results`; other paths of `results` keep theirs.
    pub fn publish_backfilled(&self, dir_sizes: &StringHashMap<u64>, results: &mut IndexParts)
        requires
            self.wf(),
            old(results).wf(),
        ensures
            final(results).wf(),
            final(results)@ == old(results)@.union_prefer_right(
                backfilled_index(self@, dir_sizes@),
            ),
    {
        let ghost sizes = dir_sizes@;
        let ghost before = results@;
        let n = self.keys.len();
        let mut i: usize = 0;
        while i < n
            invariant
                self.wf(),
                results.wf(),
                sizes == dir_sizes@,
                n == self.keys@.len(),
                i <= n,
                forall|k: Seq<char>| #[trigger]
                    results@.contains_key(k) <==> (before.contains_key(k) || (
                    self.slots@.contains_key(k) && self.slots@[k] < i)),
                forall|k: Seq<char>| #[trigger]
                    results@.contains_key(k) ==> results@[k] == (if self.slots@.contains_key(k)
                        && self.slots@[k] < i {
                        backfilled_group(self@[k], sizes)
                    } else {
                        before[k]
                    }),
            decreases n - i,
        {
            let group = &self.groups[i];
            let ghost initial = group@;
            let m = group.len();
            let mut copy: Vec<FsEntry> = Vec::new();
            let mut j: usize = 0;
            while j < m
                invariant
                    m == initial.len(),
                    initial == group@,
                    sizes == dir_sizes@,
                    j <= m,
                    copy@ =~= backfilled_group(initial.take(j as int), sizes),
                decreases m - j,
            {
                let mut e = group[j].duplicate();
                if e.entry_type == EntryType::Directory {
                    match dir_sizes.get(e.path.as_str()) {
                        Some(size) => {
                            e.size_bytes = *size;
                        },
                        None => {},
                    }
                }
                copy.push(e);
                proof {
                    assert(initial.take(j + 1) =~= initial.take(j as int).push(initial[j as int]));
                    assert(copy@ =~= backfilled_group(initial.take(j + 1), sizes));
                }
                j = j + 1;
            }
            proof {
                assert(initial.take(m as int) =~= initial);
                assert(self@[self.keys@[i as int]@] == initial);
            }
            results.set_children(self.keys[i].clone(), copy);
            i = i + 1;
        }
        proof {
            assert(results@ =~= before.union_prefer_right(backfilled_index(self@, sizes)));
        }
    }

    /// Moves every group of this index into `results`, replacing what
    /// `results` held under the same parent paths.
    pub fn merge_into(self, results: &mut IndexParts)
        requires
            self.wf(),
            old(results).wf(),
        ensures
            final(results).wf(),
            final(results)@ == old(results)@.union_prefer_right(self@),
    {
        let ghost before = results@;
        let ghost source = self@;
        let mut this = self;
        let ghost initial = this.groups@;
        let n = this.keys.len();
        let mut i: usize = 0;
        while i < n
            invariant
                this.wf(),
                results.wf(),
                n == this.keys@.len(),
                i <= n,
                this.groups@.len() == initial.len(),
                forall|j: int| i <= j < n ==> #[trigger] this.groups@[j] == initial[j],
                forall|k: Seq<char>| #[trigger]
                    source.contains_key(k) <==> this.slots@.contains_key(k),
                forall|k: Seq<char>| #[trigger]
                    this.slots@.contains_key(k) ==> source[k] == initial[this.slots@[k] as int]@,
                forall|k: Seq<char>| #[trigger]
                    results@.contains_key(k) <==> (before.contains_key(k) || (
                    this.slots@.contains_key(k) && this.slots@[k] < i)),
                forall|k: Seq<char>| #[trigger]
                    results@.contains_key(k) ==> results@[k] == (if this.slots@.contains_key(k)
                        && this.slots@[k] < i {
                        source[k]
                    } else {
                        before[k]
                    }),
            decreases n - i,
        {
            let mut group: Vec<FsEntry> = Vec::new();
            this.groups.set_and_swap(i, &mut group);
            proof {
                assert(source[this.keys@[i as int]@] == group@);
            }
            results.set_children(this.keys[i].clone(), group);
            i = i + 1;
        }
        proof {
            assert(results@ =~= before.union_prefer_right(source));
        }
    }
}

/// Backfills the directory sizes of the storage `map` (see
/// [`backfill_directory_sizes`]).
fn backfill_parts(map: &mut IndexParts, dir_sizes: &StringHashMap<u64>)
    requires
        old(map).wf(),
    ensures
        final(map).wf(),
        final(map)@ == backfilled_index(old(map)@, dir_sizes@),
{
    let ghost sizes = dir_sizes@;
    let ghost start = map@;
    let n = map.groups.len();
    let mut i: usize = 0;
    while i < n
        invariant
            map.wf(),
            sizes == dir_sizes@,
            n == map.groups@.len(),
            n == old(map).groups@.len(),
            i <= n,
            map.slots@ == old(map).slots@,
            map.keys@ == old(map).keys@,
            forall|j: int|
                0 <= j < n ==> (#[trigger] map.groups@[j])@ == (if j < i {
                    backfilled_group(old(map).groups@[j]@, sizes)
                } else {
                    old(map).groups@[j]@
                }),
        decreases n - i,
    {
        let mut group: Vec<FsEntry> = Vec::new();
        map.groups.set_and_swap(i, &mut group);
        let ghost initial = group@;
        let m = group.len();
        let mut j: usize = 0;
        while j < m
            invariant
                m == group@.len(),
                m == initial.len(),
                sizes == dir_sizes@,
                j <= m,
                forall|t: int|
                    0 <= t < m ==> #[trigger] group@[t] == (if t < j {
                        backfilled_entry(initial[t], sizes)
                    } else {
                        initial[t]
                    }),
            decreases m - j,
        {
            if group[j].entry_type == EntryType::Directory {
                match dir_sizes.get(group[j].path.as_str()) {
                    Some(size) => {
                        group[j].size_bytes = *size;
                    },
                    None => {},
                }
            }
            j = j + 1;
        }
        proof {
            assert(group@ =~= backfilled_group(initial, sizes));
        }
        map.groups.set_and_swap(i, &mut group);
        i = i + 1;
    }
    proof {
        assert(map@ =~= backfilled_index(start, sizes));
    }
}


/// Entries grouped under the path of their parent directory, in the order in
/// which they were recorded. Its view maps each parent path to its children.
pub struct ChildIndex {
    parts: IndexParts,
}

impl View for ChildIndex {
    type V = Map<Seq<char>, Seq<FsEntry>>;

    closed spec fn view(&self) -> Map<Seq<char>, Seq<FsEntry>> {
        self.parts@
    }
}

impl ChildIndex {
    /// Every parent path has exactly one slot, and the slot table and the
    /// key list agree.
    #[verifier::type_invariant]
    spec fn consistent(&self) -> bool {
        self.parts.wf()
    }

    /// An empty index.
    pub fn new() -> (r: ChildIndex)
        ensures
            r@ == Map::<Seq<char>, Seq<FsEntry>>::empty(),
    {
        ChildIndex { parts: IndexParts::new() }
    }

    /// Records `entry` as the last child of `parent`.
    pub fn push_child(&mut self, parent: String, entry: FsEntry)
        ensures
            final(self)@ == old(self)@.insert(
                parent@,
                children_or_empty(old(self)@, parent@).push(entry),
            ),
    {
        proof {
            use_type_invariant(&*self);
        }
        let mut parts = IndexParts::new();
        std::mem::swap(&mut self.parts, &mut parts);
        parts.push_child(parent, entry);
        std::mem::swap(&mut self.parts, &mut parts);
    }

    /// The children recorded under `key`, if any.
    pub fn children_of(&self, key: &str) -> (r: Option<&Vec<FsEntry>>)
        ensures
            match r {
                Some(g) => self@.contains_key(key@) && g@ == self@[key@],
                None => !self@.contains_key(key@),
            },
    {
        proof {
            use_type_invariant(self);
        }
        self.parts.children_of(key)
    }

    /// Replaces whatever was recorded under `key` by `group`.
    pub fn set_children(&mut self, key: String, group: Vec<FsEntry>)
        ensures
            final(self)@ == old(self)@.insert(key@, group@),
    {
        proof {
            use_type_invariant(&*self);
        }
        let mut parts = IndexParts::new();
        std::mem::swap(&mut self.parts, &mut parts);
        parts.set_children(key, group);
        std::mem::swap(&mut self.parts, &mut parts);
    }

    /// Publishes this index into `results` with every directory's size taken
    /// from `dir_sizes`: each parent path of this index gets its backfilled
    /// children in `results`; other paths of `results` keep theirs.
    pub fn publish_backfilled(&self, dir_sizes: &StringHashMap<u64>, results: &mut ChildIndex)
        ensures
            final(results)@ == old(results)@.union_prefer_right(
                backfilled_index(self@, dir_sizes@),
            ),
    {
        proof {
            use_type_invariant(self);
            use_type_invariant(&*results);
        }
        let mut target = IndexParts::new();
        std::mem::swap(&mut results.parts, &mut target);
        self.parts.publish_backfilled(dir_sizes, &mut target);
        std::mem::swap(&mut results.parts, &mut target);
    }

    /// Moves every group of this index into `results`, replacing what
    /// `results` held under the same parent paths.
    pub fn merge_into(self, results: &mut ChildIndex)
        ensures
            final(results)@ == old(results)@.union_prefer_right(self@),
    {
        proof {
            use_type_invariant(&self);
            use_type_invariant(&*results);
        }
        let ChildIndex { parts } = self;
        let mut target = IndexParts::new();
        std::mem::swap(&mut results.parts, &mut target);
        parts.merge_into(&mut target);
        std::mem::swap(&mut results.parts, &mut target);
    }
}

/// Assigns the running recursive sizes in `dir_sizes` to the `Directory`
/// entries of `map`, so that published directories carry their real size
/// rather than the placeholder they were recorded with.
pub fn backfill_directory_sizes(map: &mut ChildIndex, dir_sizes: &StringHashMap<u64>)
    ensures
        final(map)@ == backfilled_index(old(map)@, dir_sizes@),
{
    proof {
        use_type_invariant(&*map);
    }
    let mut parts = IndexParts::new();
    std::mem::swap(&mut map.parts, &mut parts);
    backfill_parts(&mut parts, dir_sizes);
    std::mem::swap(&mut map.parts, &mut parts);
}
} // verus!

verus! {

/// The entries of `s` whose size is `size`, in their order in `s`.
pub open spec fn with_size(s: Seq<FsEntry>, size: u64) -> Seq<FsEntry> {
    s.filter(|e: FsEntry| e.size_bytes == size)
}

/// Sizes never grow along `s`: the largest entries come first.
pub open spec fn largest_first(s: Seq<FsEntry>) -> bool {
    forall|i: int, j: int| 0 <= i < j < s.len() ==> s[i].size_bytes >= s[j].size_bytes
}

/// `sorted` holds the entries of `entries`, largest first, and entries of
/// equal size keep their relative order (a stable sort by descending size).
pub open spec fn is_sorted_by_size(entries: Seq<FsEntry>, sorted: Seq<FsEntry>) -> bool {
    &&& sorted.len() == entries.len()
    &&& largest_first(sorted)
    &&& forall|size: u64| #[trigger] with_size(sorted, size) == with_size(entries, size)
}

proof fn lemma_with_size_absent(s: Seq<FsEntry>, size: u64)
    requires
        forall|t: int| 0 <= t < s.len() ==> #[trigger] s[t].size_bytes != size,
    ensures
        with_size(s, size) =~= Seq::<FsEntry>::empty(),
{
    let pred = |e: FsEntry| e.size_bytes == size;
    s.lemma_filter_len(pred);
    if s.filter(pred).len() > 0 {
        s.lemma_filter_pred(pred, 0);
        let x = s.filter(pred)[0];
        assert(s.filter(pred).contains(x));
        s.lemma_filter_contains_rev(pred, x);
    }
}

proof fn lemma_with_size_push(s: Seq<FsEntry>, x: FsEntry, size: u64)
    ensures
        with_size(s.push(x), size) == (if x.size_bytes == size {
            with_size(s, size).push(x)
        } else {
            with_size(s, size)
        }),
{
    reveal_with_fuel(Seq::filter, 1);
    assert(s.push(x).drop_last() =~= s);
}

/// The entries of `entries`, largest first; entries of equal size keep the
/// order they had.
pub fn sorted_by_size(entries: &Vec<FsEntry>) -> (sorted: Vec<FsEntry>)
    ensures
        is_sorted_by_size(entries@, sorted@),
{
    broadcast use Seq::filter_distributes_over_add;

    let n = entries.len();
    let mut out: Vec<FsEntry> = Vec::new();
    let mut i: usize = 0;
    while i < n
        invariant
            n == entries@.len(),
            i <= n,
            out@.len() == i,
            largest_first(out@),
            forall|size: u64| #[trigger]
                with_size(out@, size) == with_size(entries@.take(i as int), size),
        decreases n - i,
    {
        let x = entries[i].duplicate();
        let len = out.len();
        let mut k: usize = 0;
        while k < len && out[k].size_bytes >= x.size_bytes
            invariant
                len == out@.len(),
                k <= len,
                forall|t: int| 0 <= t < k ==> #[trigger] out@[t].size_bytes >= x.size_bytes,
            decreases len - k,
        {
            k = k + 1;
        }
        let ghost o = out@;
        proof {
            assert forall|t: int| k <= t < o.len() implies #[trigger] o[t].size_bytes < x.size_bytes by {
                assert(o[k as int].size_bytes < x.size_bytes);
            }
        }
        out.insert(k, x);
        proof {
            let before = o.take(k as int);
            let after = o.skip(k as int);
            assert(o =~= before + after);
            assert(out@ =~= before + seq![x] + after);
            assert(entries@.take(i + 1) =~= entries@.take(i as int).push(x));
            assert forall|size: u64| #[trigger]
                with_size(out@, size) == with_size(entries@.take(i + 1), size) by {
                assert(with_size(o, size) == with_size(before, size) + with_size(after, size));
                assert(with_size(out@, size) == with_size(before, size) + with_size(seq![x], size)
                    + with_size(after, size));
                lemma_with_size_push(entries@.take(i as int), x, size);
                lemma_with_size_push(Seq::<FsEntry>::empty(), x, size);
                assert(seq![x] =~= Seq::<FsEntry>::empty().push(x));
                assert(with_size(Seq::<FsEntry>::empty(), size) =~= Seq::<FsEntry>::empty());
                if x.size_bytes == size {
                    assert forall|t: int| 0 <= t < after.len() implies #[trigger] after[t].size_bytes
                        != size by {
                        assert(after[t] == o[k + t]);
                    }
                    lemma_with_size_absent(after, size);
                    assert(with_size(seq![x], size) =~= seq![x]);
                    assert(with_size(out@, size) =~= with_size(o, size).push(x));
                } else {
                    assert(with_size(seq![x], size) =~= Seq::<FsEntry>::empty());
                    assert(with_size(out@, size) =~= with_size(o, size));
                }
            }
            assert forall|a: int, b: int| 0 <= a < b < out@.len() implies out@[a].size_bytes
                >= out@[b].size_bytes by {
                if b < k {
                } else if b == k {
                    assert(out@[a] == o[a]);
                } else if a < k {
                    assert(out@[a] == o[a]);
                    assert(out@[b] == o[b - 1]);
                } else if a == k {
                    assert(out@[b] == o[b - 1]);
                } else {
                    assert(out@[a] == o[a - 1]);
                    assert(out@[b] == o[b - 1]);
                }
            }
        }
        i = i + 1;
    }
    proof {
        assert(entries@.take(n as int) =~= entries@);
    }
    out
}

/// Shared state of the application: everything scans have published so far,
/// by parent path, and how many scans have begun.
pub struct AppState {
    pub scan_results: ChildIndex,
    /// How many scans have begun: the generation of the latest one.
    pub scans_begun: u64,
}

impl AppState {
    /// A state with no scan results, in which no scan has begun.
    pub fn new() -> (r: AppState)
        ensures
            r.scan_results@ == Map::<Seq<char>, Seq<FsEntry>>::empty(),
            r.scans_begun == 0,
    {
        AppState { scan_results: ChildIndex::new(), scans_begun: 0 }
    }

    /// Begins a scan: gives it the next generation, one more than the
    /// latest scan's, so each scan's generation is larger than that of every
    /// scan begun before it; `None` once every generation has been used.
    /// The published results are untouched.
    pub fn begin_scan(&mut self) -> (r: Option<u64>)
        ensures
            final(self).scan_results@ == old(self).scan_results@,
            old(self).scans_begun < u64::MAX ==> r == Some((old(self).scans_begun + 1) as u64)
                && final(self).scans_begun == old(self).scans_begun + 1,
            old(self).scans_begun == u64::MAX ==> r is None && final(self).scans_begun
                == old(self).scans_begun,
    {
        if self.scans_begun < u64::MAX {
            self.scans_begun = self.scans_begun + 1;
            Some(self.scans_begun)
        } else {
            None
        }
    }
}

impl Default for AppState {
    fn default() -> (r: AppState)
        ensures
            r.scan_results@ == Map::<Seq<char>, Seq<FsEntry>>::empty(),
            r.scans_begun == 0,
    {
        AppState::new()
    }
}

/// The children of `path` that scans have published so far, largest first
/// (entries of equal size in the order they were recorded); no entries for a
/// path nothing was published under.
pub fn get_directory_contents(path: &str, state: &AppState) -> (r: Result<Vec<FsEntry>, String>)
    ensures
        match r {
            Ok(listing) => is_sorted_by_size(
                children_or_empty(state.scan_results@, path@),
                listing@,
            ),
            Err(_) => false,
        },
{
    match state.scan_results.children_of(path) {
        Some(children) => Ok(sorted_by_size(children)),
        None => {
            let empty: Vec<FsEntry> = Vec::new();
            proof {
                assert(children_or_empty(state.scan_results@, path@) =~= empty@);
            }
            Ok(empty)
        },
    }
}

/// Whether a scan rooted at `root` leaves out the directory `path`: only a
/// scan of the whole system (`root` is `/`) skips anything, and it skips the
/// APFS data volume `/System/Volumes/Data` and every other mounted volume
/// listed in `exclude_mounted_volumes`.
pub fn should_skip_directory(path: &str, root: &str, exclude_mounted_volumes: &Vec<String>) -> (r:
    bool)
    ensures
        r == (same_path(root@, "/"@) && (same_path(path@, "/System/Volumes/Data"@) || exists|
            i: int,
        |
            0 <= i < exclude_mounted_volumes@.len() && same_path(
                #[trigger] exclude_mounted_volumes@[i]@,
                path@,
            ))),
{
    if !paths_equal(root, "/") {
        return false;
    }
    if paths_equal(path, "/System/Volumes/Data") {
        return true;
    }
    let n = exclude_mounted_volumes.len();
    let mut i: usize = 0;
    while i < n
        invariant
            n == exclude_mounted_volumes@.len(),
            i <= n,
            same_path(root@, "/"@),
            !same_path(path@, "/System/Volumes/Data"@),
            forall|j: int| 0 <= j < i ==> !same_path(#[trigger] exclude_mounted_volumes@[j]@, path@),
        decreases n - i,
    {
        if paths_equal(exclude_mounted_volumes[i].as_str(), path) {
            assert(same_path(exclude_mounted_volumes@[i as int]@, path@));
            return true;
        }
        i = i + 1;
    }
    false
}

} // verus!

verus! {

/// Backfilling is idempotent: publishing an already published index with the
/// same running sizes changes nothing.
pub proof fn lemma_backfill_idempotent(m: Map<Seq<char>, Seq<FsEntry>>, sizes: Map<Seq<char>, u64>)
    ensures
        backfilled_index(backfilled_index(m, sizes), sizes) == backfilled_index(m, sizes),
{
    let once = backfilled_index(m, sizes);
    let twice = backfilled_index(once, sizes);
    assert forall|k: Seq<char>| twice.contains_key(k) implies twice[k] == once[k] by {
        assert(backfilled_group(once[k], sizes) =~= once[k]);
    }
    assert(twice =~= once);
}

/// A published entry is the recorded entry with, for a directory that has a
/// running total, exactly that total as its size, whatever its magnitude:
/// the parent paths stay the same, every group keeps its length and order,
/// each entry keeps its path and kind, a directory with a running total
/// takes it, and any other entry keeps the size it was recorded with.
pub proof fn lemma_published_entry_carries_its_total(
    m: Map<Seq<char>, Seq<FsEntry>>,
    sizes: Map<Seq<char>, u64>,
    key: Seq<char>,
    i: int,
)
    requires
        m.contains_key(key),
        0 <= i < m[key].len(),
    ensures
        backfilled_index(m, sizes).dom() == m.dom(),
        backfilled_index(m, sizes)[key].len() == m[key].len(),
        backfilled_index(m, sizes)[key][i].path == m[key][i].path,
        backfilled_index(m, sizes)[key][i].entry_type == m[key][i].entry_type,
        m[key][i].entry_type == EntryType::Directory && sizes.contains_key(m[key][i].path@)
            ==> backfilled_index(m, sizes)[key][i].size_bytes == sizes[m[key][i].path@],
        !(m[key][i].entry_type == EntryType::Directory && sizes.contains_key(m[key][i].path@))
            ==> backfilled_index(m, sizes)[key][i].size_bytes == m[key][i].size_bytes,
{
}

/// What a read gives back of a publish: after an index is published into
/// the results, the children served for one of its parent paths are that
/// path's recorded children, each directory carrying its running size.
pub proof fn lemma_read_after_publish(
    results: Map<Seq<char>, Seq<FsEntry>>,
    index: Map<Seq<char>, Seq<FsEntry>>,
    sizes: Map<Seq<char>, u64>,
    path: Seq<char>,
)
    requires
        index.contains_key(path),
    ensures
        children_or_empty(results.union_prefer_right(backfilled_index(index, sizes)), path)
            == backfilled_group(index[path], sizes),
{
}

} // verus!

verus! {

proof fn lemma_count_within_size(s: Seq<FsEntry>, x: FsEntry)
    ensures
        s.to_multiset().count(x) == with_size(s, x.size_bytes).to_multiset().count(x),
    decreases s.len(),
{
    broadcast use vstd::seq_lib::group_to_multiset_ensures;
    broadcast use vstd::multiset::group_multiset_axioms;

    if s.len() == 0 {
        assert(with_size(s, x.size_bytes) =~= s) by {
            reveal_with_fuel(Seq::filter, 1);
        }
    } else {
        let rest = s.drop_last();
        let y = s.last();
        assert(s =~= rest.push(y));
        lemma_count_within_size(rest, x);
        lemma_with_size_push(rest, y, x.size_bytes);
    }
}

/// A listing neither loses nor invents entries: a directory's children
/// sorted by size are the same entries, each as often, as before sorting.
pub proof fn lemma_sorted_listing_is_a_rearrangement(entries: Seq<FsEntry>, sorted: Seq<FsEntry>)
    requires
        is_sorted_by_size(entries, sorted),
    ensures
        sorted.to_multiset() == entries.to_multiset(),
{
    assert forall|x: FsEntry| sorted.to_multiset().count(x) == entries.to_multiset().count(x) by {
        lemma_count_within_size(sorted, x);
        lemma_count_within_size(entries, x);
        assert(with_size(sorted, x.size_bytes) == with_size(entries, x.size_bytes));
    }
    assert(sorted.to_multiset() =~= entries.to_multiset());
}

} // verus!
