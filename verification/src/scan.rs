//! The decisions of a volume scan.
//!
//! Walking the volume, reading metadata, keeping time and talking to the
//! window are the caller's part. The caller hands each entry the walk yields
//! to [`ScanState::record_entry`], which counts it, groups it under its parent
//! directory and rolls its size up through every ancestor directory up to the
//! scan's root; [`ScanState::publish`] and [`ScanState::finish`] make what is
//! known visible to readers, with every directory carrying its running size.

use crate::disks::DiskInfo;
use crate::filesystem::{
    AppState,
    backfill_directory_sizes, backfilled_index, children_or_empty, should_skip_directory,
    ChildIndex, EntryType, FsEntry, ScanMessage,
};
use crate::paths::{texts, parent_path, path_parent, path_starts_with, path_within, paths_equal, same_path};
use vstd::hash_map::StringHashMap;
use vstd::prelude::*;

verus! {

/// One entry as the walk reports it: its path, its kind, and the bytes its
/// metadata says it occupies on disk (if the metadata could be read; see
/// [`allocated_bytes`]).
pub struct WalkedEntry {
    pub path: String,
    pub is_dir: bool,
    pub is_symlink: bool,
    pub length: Option<u64>,
}

/// What the walk knows of a candidate child before descending into it: its
/// path, whether it is a directory, and the device its metadata names (if
/// the metadata could be read).
pub struct ChildProbe {
    pub path: String,
    pub is_dir: bool,
    pub device: Option<u64>,
}

/// The kind recorded for an entry: a symbolic link first, then a directory,
/// otherwise a file.
pub open spec fn entry_type_of(is_dir: bool, is_symlink: bool) -> EntryType {
    if is_symlink {
        EntryType::Symlink
    } else if is_dir {
        EntryType::Directory
    } else {
        EntryType::File
    }
}

/// Whether an entry's length counts toward the scan: only a file's does.
pub open spec fn is_counted(is_dir: bool, is_symlink: bool) -> bool {
    !is_dir && !is_symlink
}

/// The bytes an entry counts for: a file's length (0 when it could not be
/// read); directories and symbolic links count nothing themselves.
pub open spec fn counted_size(e: WalkedEntry) -> u64 {
    if is_counted(e.is_dir, e.is_symlink) {
        match e.length {
            Some(n) => n,
            None => 0,
        }
    } else {
        0
    }
}

/// The directories an entry's size is credited to, starting at `start` and
/// going up parent by parent: the walk stops after the directory that is the
/// scan's root, or when there is no parent left. `fuel` bounds the number of
/// steps; each parent is shorter than its child, so a path's length is
/// enough.
pub open spec fn rollup_chain(start: Option<Seq<char>>, root: Seq<char>, fuel: nat) -> Seq<
    Seq<char>,
>
    decreases fuel,
{
    if fuel == 0 {
        Seq::empty()
    } else {
        match start {
            None => Seq::empty(),
            Some(p) => if same_path(p, root) {
                seq![p]
            } else {
                seq![p] + rollup_chain(parent_path(p), root, (fuel - 1) as nat)
            },
        }
    }
}

/// The ancestors of `path` whose recursive size includes `path`'s bytes.
pub open spec fn ancestors_to_credit(path: Seq<char>, root: Seq<char>) -> Seq<Seq<char>> {
    rollup_chain(parent_path(path), root, path.len())
}

/// The running size recorded for `key`, 0 when none is.
pub open spec fn size_or_zero(m: Map<Seq<char>, u64>, key: Seq<char>) -> u64 {
    if m.contains_key(key) {
        m[key]
    } else {
        0
    }
}

/// The running sizes after `size` bytes are credited once to every directory
/// of `chain`.
pub open spec fn credited(m: Map<Seq<char>, u64>, chain: Seq<Seq<char>>, size: u64) -> Map<
    Seq<char>,
    u64,
> {
    Map::new(
        |k: Seq<char>| m.contains_key(k) || chain.contains(k),
        |k: Seq<char>|
            if chain.contains(k) {
                (size_or_zero(m, k) + size) as u64
            } else {
                m[k]
            },
    )
}

/// The sum of the used bytes of the disks on which `root` lies.
pub open spec fn used_total(root: Seq<char>, disks: Seq<DiskInfo>) -> int
    decreases disks.len(),
{
    if disks.len() == 0 {
        0
    } else {
        used_total(root, disks.drop_last()) + (if path_within(root, disks.last().mount_point@) {
            disks.last().used_bytes as int
        } else {
            0
        })
    }
}

/// The mount points of the disks on which `root` does not lie: other
/// volumes, which the scan must not walk into.
pub open spec fn other_mounts(root: Seq<char>, disks: Seq<DiskInfo>) -> Seq<Seq<char>> {
    disks.filter(|d: DiskInfo| !path_within(root, d.mount_point@)).map_values(
        |d: DiskInfo| d.mount_point@,
    )
}

/// Whether the walk descends into / reports a candidate child: not a child it
/// could not read, not a skipped directory, and only one on the root's device.
pub open spec fn keeps_child(
    probe: Option<ChildProbe>,
    root: Seq<char>,
    excludes: Seq<Seq<char>>,
    root_device: u64,
) -> bool {
    match probe {
        None => false,
        Some(c) => {
            let skipped = c.is_dir && same_path(root, "/"@) && (same_path(
                c.path@,
                "/System/Volumes/Data"@,
            ) || exists|i: int| 0 <= i < excludes.len() && same_path(#[trigger] excludes[i], c.path@));
            !skipped && c.device == Some(root_device)
        },
    }
}

proof fn lemma_used_total_grows(root: Seq<char>, disks: Seq<DiskInfo>, j: int)
    requires
        0 <= j <= disks.len(),
    ensures
        used_total(root, disks.take(j)) <= used_total(root, disks),
        used_total(root, disks) >= 0,
    decreases disks.len(),
{
    if disks.len() > 0 {
        if j == disks.len() {
            assert(disks.take(j) =~= disks);
            lemma_used_total_grows(root, disks.drop_last(), 0);
        } else {
            assert(disks.take(j) =~= disks.drop_last().take(j));
            lemma_used_total_grows(root, disks.drop_last(), j);
        }
    }
}

/// The sum of the used bytes of the disks on which `root` lies, or `None`
/// when it does not fit in a `u64`.
pub fn volume_used_bytes(root: &str, disks: &Vec<DiskInfo>) -> (r: Option<u64>)
    ensures
        r == (if used_total(root@, disks@) <= u64::MAX {
            Some(used_total(root@, disks@) as u64)
        } else {
            None
        }),
{
    let n = disks.len();
    let mut total: u64 = 0;
    let mut i: usize = 0;
    while i < n
        invariant
            n == disks@.len(),
            i <= n,
            total == used_total(root@, disks@.take(i as int)),
        decreases n - i,
    {
        proof {
            assert(disks@.take(i + 1).drop_last() =~= disks@.take(i as int));
        }
        if path_starts_with(root, disks[i].mount_point.as_str()) {
            match total.checked_add(disks[i].used_bytes) {
                Some(t) => {
                    total = t;
                },
                None => {
                    proof {
                        lemma_used_total_grows(root@, disks@, i + 1);
                    }
                    return None;
                },
            }
        }
        i = i + 1;
    }
    proof {
        assert(disks@.take(n as int) =~= disks@);
    }
    Some(total)
}

/// The mount points of the disks on which `root` does not lie, in order.
pub fn other_mount_points(root: &str, disks: &Vec<DiskInfo>) -> (r: Vec<String>)
    ensures
        texts(r@) == other_mounts(root@, disks@),
{
    let ghost keep = |d: DiskInfo| !path_within(root@, d.mount_point@);
    let ghost mount = |d: DiskInfo| d.mount_point@;
    let n = disks.len();
    let mut out: Vec<String> = Vec::new();
    let mut i: usize = 0;
    while i < n
        invariant
            n == disks@.len(),
            i <= n,
            keep == (|d: DiskInfo| !path_within(root@, d.mount_point@)),
            mount == (|d: DiskInfo| d.mount_point@),
            texts(out@) == disks@.take(i as int).filter(keep).map_values(mount),
        decreases n - i,
    {
        proof {
            let t = disks@.take(i + 1);
            assert(t.drop_last() =~= disks@.take(i as int));
            assert(t.last() == disks@[i as int]);
            reveal_with_fuel(Seq::filter, 1);
        }
        let ghost prev = out@;
        if !path_starts_with(root, disks[i].mount_point.as_str()) {
            out.push(disks[i].mount_point.clone());
            proof {
                let t = disks@.take(i + 1);
                assert(texts(out@) =~= texts(prev).push(disks@[i as int].mount_point@));
                assert(keep(t.last()));
                assert(t.filter(keep) == t.drop_last().filter(keep).push(t.last()));
                assert(out@ == prev.push(disks@[i as int].mount_point));
            }
        } else {
            proof {
                let t = disks@.take(i + 1);
                assert(!keep(t.last()));
                assert(t.filter(keep) == t.drop_last().filter(keep));
            }
        }
        proof {
            assert(texts(out@) =~= disks@.take(i + 1).filter(keep).map_values(
                mount,
            ));
        }
        i = i + 1;
    }
    proof {
        assert(disks@.take(n as int) =~= disks@);
    }
    out
}

/// The size of one allocation block, in bytes: the unit in which file
/// metadata reports the blocks a file occupies.
pub const BLOCK_BYTES: u64 = 512;

/// The bytes physically allocated to a file that occupies `blocks` blocks,
/// or `None` when that does not fit in a `u64`. Sizes are physical rather
/// than logical, so copy-on-write clones and sparse files count for what
/// they take on disk.
pub fn allocated_bytes(blocks: u64) -> (r: Option<u64>)
    ensures
        r == (if blocks * BLOCK_BYTES <= u64::MAX {
            Some((blocks * BLOCK_BYTES) as u64)
        } else {
            None
        }),
{
    blocks.checked_mul(BLOCK_BYTES)
}

/// Whether the length of an entry of this kind counts toward the scan, so
/// that the walk reads metadata only where it matters.
pub fn length_counts(is_dir: bool, is_symlink: bool) -> (r: bool)
    ensures
        r == is_counted(is_dir, is_symlink),
{
    !is_dir && !is_symlink
}

/// Whether the walk keeps a candidate child (see [`keeps_child`]); `None`
/// stands for a child the walk could not read.
pub fn keep_walk_child(
    probe: Option<&ChildProbe>,
    root: &str,
    exclude_mounted_volumes: &Vec<String>,
    root_device: u64,
) -> (r: bool)
    ensures
        r == keeps_child(
            match probe {
                Some(c) => Some(*c),
                None => None,
            },
            root@,
            texts(exclude_mounted_volumes@),
            root_device,
        ),
{
    match probe {
        None => false,
        Some(c) => {
            if c.is_dir && should_skip_directory(c.path.as_str(), root, exclude_mounted_volumes) {
                proof {
                    let ex = texts(exclude_mounted_volumes@);
                    if !same_path(c.path@, "/System/Volumes/Data"@) {
                        let i = choose|i: int|
                            0 <= i < exclude_mounted_volumes@.len() && same_path(
                                #[trigger] exclude_mounted_volumes@[i]@,
                                c.path@,
                            );
                        assert(ex[i] == exclude_mounted_volumes@[i]@);
                    }
                }
                return false;
            }
            proof {
                let ex = texts(exclude_mounted_volumes@);
                if c.is_dir && same_path(root@, "/"@) && !same_path(c.path@, "/System/Volumes/Data"@) {
                    assert forall|i: int| 0 <= i < ex.len() implies !same_path(
                        #[trigger] ex[i],
                        c.path@,
                    ) by {
                        assert(ex[i] == exclude_mounted_volumes@[i]@);
                    }
                }
            }
            match c.device {
                Some(d) => d == root_device,
                None => false,
            }
        },
    }
}

} // verus!

verus! {

/// What a scan knows at a given moment.
pub struct ScanView {
    /// The scan's generation, which every message it sends carries.
    pub generation: u64,
    /// The directory the scan walks.
    pub root: Seq<char>,
    /// The device the root lies on; the walk stays on it.
    pub root_device: u64,
    /// The used bytes of the volume the root lies on, announced when the scan starts.
    pub total_bytes: u64,
    /// Mount points of other volumes, which the walk leaves out.
    pub excluded: Seq<Seq<char>>,
    /// Entries recorded so far.
    pub scanned_files: u64,
    /// Bytes counted so far.
    pub scanned_bytes: u64,
    /// Recorded entries, grouped under their parent directory.
    pub children: Map<Seq<char>, Seq<FsEntry>>,
    /// Running recursive size of every directory that has been credited.
    pub dir_sizes: Map<Seq<char>, u64>,
}

/// The state of one scan.
pub struct ScanState {
    generation: u64,
    root: String,
    root_device: u64,
    total_bytes: u64,
    excluded: Vec<String>,
    scanned_files: u64,
    scanned_bytes: u64,
    children: ChildIndex,
    dir_sizes: StringHashMap<u64>,
}

impl View for ScanState {
    type V = ScanView;

    closed spec fn view(&self) -> ScanView {
        ScanView {
            generation: self.generation,
            root: self.root@,
            root_device: self.root_device,
            total_bytes: self.total_bytes,
            excluded: texts(self.excluded@),
            scanned_files: self.scanned_files,
            scanned_bytes: self.scanned_bytes,
            children: self.children@,
            dir_sizes: self.dir_sizes@,
        }
    }
}

/// No directory's running size exceeds the bytes counted so far.
pub open spec fn sizes_within_scanned(v: ScanView) -> bool {
    forall|k: Seq<char>| #[trigger] v.dir_sizes.contains_key(k) ==> v.dir_sizes[k] <= v.scanned_bytes
}

/// The state after recording `e` in the state `v`.
pub open spec fn after_record(v: ScanView, e: WalkedEntry) -> ScanView {
    let size = counted_size(e);
    let recorded = FsEntry {
        path: e.path,
        entry_type: entry_type_of(e.is_dir, e.is_symlink),
        size_bytes: size,
    };
    ScanView {
        scanned_files: (v.scanned_files + 1) as u64,
        scanned_bytes: (v.scanned_bytes + size) as u64,
        children: match parent_path(e.path@) {
            Some(p) => v.children.insert(p, children_or_empty(v.children, p).push(recorded)),
            None => v.children,
        },
        dir_sizes: if size > 0 {
            credited(v.dir_sizes, ancestors_to_credit(e.path@, v.root), size)
        } else {
            v.dir_sizes
        },
        ..v
    }
}

/// Whether the counters can take `e` without overflowing.
pub open spec fn can_take(v: ScanView, e: WalkedEntry) -> bool {
    v.scanned_files < u64::MAX && v.scanned_bytes + counted_size(e) <= u64::MAX
}

spec fn opt_text(o: Option<String>) -> Option<Seq<char>> {
    match o {
        Some(s) => Some(s@),
        None => None,
    }
}

/// Credits `size` bytes to every directory from `path`'s parent up to the
/// scan's root (or to the top, when the root is not an ancestor).
fn roll_up(dir_sizes: &mut StringHashMap<u64>, root: &String, path: &String, size: u64, scanned_bytes: u64)
    requires
        scanned_bytes >= size,
        forall|k: Seq<char>| #[trigger]
            old(dir_sizes)@.contains_key(k) ==> old(dir_sizes)@[k] <= scanned_bytes - size,
    ensures
        final(dir_sizes)@ == credited(old(dir_sizes)@, ancestors_to_credit(path@, root@), size),
        forall|k: Seq<char>| #[trigger]
            final(dir_sizes)@.contains_key(k) ==> final(dir_sizes)@[k] <= scanned_bytes,
{
    let ghost start = dir_sizes@;
    let ghost chain = ancestors_to_credit(path@, root@);
    let ghost mut fuel: nat = path@.len();
    let ghost mut done: Seq<Seq<char>> = Seq::empty();
    let mut curr: Option<String> = path_parent(path.as_str());
    loop
        invariant_except_break
            curr matches Some(c) ==> c@.len() < fuel,
            chain == done + rollup_chain(opt_text(curr), root@, fuel),
            forall|t: int| #![trigger done[t]]
                0 <= t < done.len() ==> (curr matches Some(c) ==> done[t].len() > c@.len()),
        invariant
            start == old(dir_sizes)@,
            chain == ancestors_to_credit(path@, root@),
            dir_sizes@ == credited(start, done, size),
            forall|k: Seq<char>| #[trigger]
                start.contains_key(k) ==> start[k] <= scanned_bytes - size,
        ensures
            dir_sizes@ == credited(start, chain, size),
        decreases fuel,
    {
        match curr {
            None => {
                proof {
                    assert(done + rollup_chain(opt_text(curr), root@, fuel) =~= done);
                }
                break;
            },
            Some(p) => {
                proof {
                    assert(!done.contains(p@));
                }
                let current = match dir_sizes.get(p.as_str()) {
                    Some(v) => *v,
                    None => 0,
                };
                assert(current == size_or_zero(start, p@));
                dir_sizes.insert(p.clone(), current + size);
                let ghost rest = rollup_chain(parent_path(p@), root@, (fuel - 1) as nat);
                proof {
                    broadcast use vstd::seq_lib::group_seq_properties;
                    assert forall|k: Seq<char>| done.push(p@).contains(k) == (done.contains(k) || k == p@) by {
                        if done.push(p@).contains(k) {
                            let t = choose|t: int| 0 <= t < done.push(p@).len() && done.push(p@)[t] == k;
                            if t < done.len() {
                                assert(done[t] == k);
                            }
                        }
                        if k == p@ {
                            assert(done.push(p@)[done.len() as int] == k);
                        }
                        if done.contains(k) {
                            let t = choose|t: int| 0 <= t < done.len() && done[t] == k;
                            assert(done.push(p@)[t] == k);
                        }
                    }
                    assert(dir_sizes@ =~= credited(start, done.push(p@), size));
                    done = done.push(p@);
                }
                if paths_equal(p.as_str(), root.as_str()) {
                    proof {
                        assert(chain =~= done);
                    }
                    break;
                }
                let next = path_parent(p.as_str());
                proof {
                    assert(chain =~= done + rest);
                    fuel = (fuel - 1) as nat;
                }
                curr = next;
            },
        }
    }
    proof {
        assert forall|k: Seq<char>| #[trigger] dir_sizes@.contains_key(k) implies dir_sizes@[k]
            <= scanned_bytes by {
            if !chain.contains(k) {
                assert(start.contains_key(k));
            }
        }
    }
}


impl ScanState {
    /// No directory's running size exceeds the bytes counted so far.
    #[verifier::type_invariant]
    spec fn consistent(&self) -> bool {
        sizes_within_scanned(self@)
    }

    /// A state that holds nothing, to stand in while a state is taken apart.
    fn placeholder() -> (r: ScanState) {
        ScanState {
            generation: 0,
            root: String::new(),
            root_device: 0,
            total_bytes: 0,
            excluded: Vec::new(),
            scanned_files: 0,
            scanned_bytes: 0,
            children: ChildIndex::new(),
            dir_sizes: StringHashMap::new(),
        }
    }

    /// Starts the scan of generation `generation` of `root`, which lies on
    /// device `root_device`, given the mounted disks. The scan announces the
    /// used bytes of the volume `root` lies on, and leaves out the mount
    /// points of all other disks.
    pub fn start(generation: u64, root: String, root_device: u64, disks: &Vec<DiskInfo>) -> (r: (
        ScanState,
        ScanMessage,
    ))
        requires
            used_total(root@, disks@) <= u64::MAX,
        ensures
            r.0@ == (ScanView {
                generation,
                root: root@,
                root_device,
                total_bytes: used_total(root@, disks@) as u64,
                excluded: other_mounts(root@, disks@),
                scanned_files: 0,
                scanned_bytes: 0,
                children: Map::empty(),
                dir_sizes: Map::empty(),
            }),
            r.1 == (ScanMessage::Start { total_bytes: used_total(root@, disks@) as u64, generation }),
    {
        let total = match volume_used_bytes(root.as_str(), disks) {
            Some(t) => t,
            None => 0,
        };
        let excluded = other_mount_points(root.as_str(), disks);
        let state = ScanState {
            generation,
            root,
            root_device,
            total_bytes: total,
            excluded,
            scanned_files: 0,
            scanned_bytes: 0,
            children: ChildIndex::new(),
            dir_sizes: StringHashMap::new(),
        };
        (state, ScanMessage::Start { total_bytes: total, generation })
    }

    /// Starts a scan as [`ScanState::start`] does, or gives `None` when the
    /// used bytes of the volumes `root` lies on do not fit in a `u64`.
    pub fn try_start(generation: u64, root: String, root_device: u64, disks: &Vec<DiskInfo>) -> (r: Option<
        (ScanState, ScanMessage),
    >)
        ensures
            r is None <==> used_total(root@, disks@) > u64::MAX,
            r matches Some(p) ==> p.0@ == (ScanView {
                generation,
                root: root@,
                root_device,
                total_bytes: used_total(root@, disks@) as u64,
                excluded: other_mounts(root@, disks@),
                scanned_files: 0,
                scanned_bytes: 0,
                children: Map::empty(),
                dir_sizes: Map::empty(),
            }) && p.1 == (ScanMessage::Start {
                total_bytes: used_total(root@, disks@) as u64,
                generation,
            }),
    {
        match volume_used_bytes(root.as_str(), disks) {
            Some(_) => Some(ScanState::start(generation, root, root_device, disks)),
            None => None,
        }
    }

    /// The directory this scan walks.
    pub fn root(&self) -> (r: &String)
        ensures
            r@ == self@.root,
    {
        &self.root
    }

    /// The device the walk stays on.
    pub fn root_device(&self) -> (r: u64)
        ensures
            r == self@.root_device,
    {
        self.root_device
    }

    /// The mount points the walk leaves out.
    pub fn excluded_mounts(&self) -> (r: &Vec<String>)
        ensures
            texts(r@) == self@.excluded,
    {
        &self.excluded
    }

    /// Entries recorded so far.
    pub fn scanned_files(&self) -> (r: u64)
        ensures
            r == self@.scanned_files,
    {
        self.scanned_files
    }

    /// Bytes counted so far.
    pub fn scanned_bytes(&self) -> (r: u64)
        ensures
            r == self@.scanned_bytes,
    {
        self.scanned_bytes
    }

    /// The running size of directory `path`, if it has been credited.
    pub fn directory_size(&self, path: &str) -> (r: Option<u64>)
        ensures
            r == self@.dir_sizes.get(path@),
    {
        match self.dir_sizes.get(path) {
            Some(v) => Some(*v),
            None => None,
        }
    }

    /// The entries recorded under `parent` so far, in the order recorded.
    pub fn recorded_children(&self, parent: &str) -> (r: Option<&Vec<FsEntry>>)
        ensures
            match r {
                Some(g) => self@.children.contains_key(parent@) && g@ == self@.children[parent@],
                None => !self@.children.contains_key(parent@),
            },
    {
        self.children.children_of(parent)
    }

    /// Whether recording `e` keeps the counters within a `u64`.
    pub fn can_record(&self, e: &WalkedEntry) -> (r: bool)
        ensures
            r == can_take(self@, *e),
    {
        let size = Self::size_counted(e);
        self.scanned_files < u64::MAX && size <= u64::MAX - self.scanned_bytes
    }

    fn size_counted(e: &WalkedEntry) -> (r: u64)
        ensures
            r == counted_size(*e),
    {
        if length_counts(e.is_dir, e.is_symlink) {
            match e.length {
                Some(n) => n,
                None => 0,
            }
        } else {
            0
        }
    }

    /// Records one entry the walk yielded: counts it, groups it under its
    /// parent directory, and credits its bytes to every directory from its
    /// parent up to the scan's root.
    pub fn record_entry(&mut self, entry: WalkedEntry)
        requires
            can_take(old(self)@, entry),
        ensures
            final(self)@ == after_record(old(self)@, entry),
            sizes_within_scanned(final(self)@),
    {
        proof {
            use_type_invariant(&*self);
        }
        let ghost e = entry;
        let mut taken = ScanState::placeholder();
        std::mem::swap(self, &mut taken);
        let ScanState {
            generation,
            root,
            root_device,
            total_bytes,
            excluded,
            scanned_files,
            scanned_bytes,
            mut children,
            mut dir_sizes,
        } = taken;
        let size = Self::size_counted(&entry);
        let entry_type = if entry.is_symlink {
            EntryType::Symlink
        } else if entry.is_dir {
            EntryType::Directory
        } else {
            EntryType::File
        };
        let scanned_files = scanned_files + 1;
        let scanned_bytes = scanned_bytes + size;
        if size > 0 {
            proof {
                assert forall|k: Seq<char>| #[trigger] dir_sizes@.contains_key(k) implies dir_sizes@[k]
                    <= scanned_bytes - size by {
                    assert(old(self)@.dir_sizes.contains_key(k));
                }
            }
            roll_up(&mut dir_sizes, &root, &entry.path, size, scanned_bytes);
        }
        let parent = path_parent(entry.path.as_str());
        match parent {
            Some(p) => {
                children.push_child(p, FsEntry { path: entry.path, entry_type, size_bytes: size });
            },
            None => {},
        }
        proof {
            assert forall|k: Seq<char>| #[trigger] dir_sizes@.contains_key(k) implies dir_sizes@[k]
                <= scanned_bytes by {
                if size == 0 {
                    assert(old(self)@.dir_sizes.contains_key(k));
                }
            }
        }
        *self = ScanState {
            generation,
            root,
            root_device,
            total_bytes,
            excluded,
            scanned_files,
            scanned_bytes,
            children,
            dir_sizes,
        };
        proof {
            assert(self@ == after_record(old(self)@, e));
        }
    }

    /// The progress message for what has been counted so far.
    pub fn progress(&self) -> (m: ScanMessage)
        ensures
            m == (ScanMessage::Progress {
                scanned_files: self@.scanned_files,
                scanned_bytes: self@.scanned_bytes,
                generation: self@.generation,
            }),
    {
        ScanMessage::Progress {
            scanned_files: self.scanned_files,
            scanned_bytes: self.scanned_bytes,
            generation: self.generation,
        }
    }

    /// Publishes a snapshot of what is known into `results`: every parent
    /// directory recorded so far gets its children, directories carrying
    /// their running size; other paths of `results` keep theirs.
    pub fn publish(&self, results: &mut ChildIndex)
        ensures
            final(results)@ == old(results)@.union_prefer_right(
                backfilled_index(self@.children, self@.dir_sizes),
            ),
    {
        self.children.publish_backfilled(&self.dir_sizes, results);
    }

    /// Ends the scan: publishes everything recorded into `results` as
    /// [`ScanState::publish`] does, and gives the closing messages (the final
    /// progress, then completion).
    pub fn finish(self, results: &mut ChildIndex) -> (messages: Vec<ScanMessage>)
        ensures
            final(results)@ == old(results)@.union_prefer_right(
                backfilled_index(self@.children, self@.dir_sizes),
            ),
            messages@ == seq![
                ScanMessage::Progress {
                    scanned_files: self@.scanned_files,
                    scanned_bytes: self@.scanned_bytes,
                    generation: self@.generation,
                },
                ScanMessage::Complete { generation: self@.generation },
            ],
    {
        let last = self.progress();
        let generation = self.generation;
        let ScanState { children, dir_sizes, .. } = self;
        let mut index = children;
        backfill_directory_sizes(&mut index, &dir_sizes);
        index.merge_into(results);
        let mut messages: Vec<ScanMessage> = Vec::new();
        messages.push(last);
        messages.push(ScanMessage::Complete { generation });
        messages
    }
}

/// How often, at most, a scan reports progress.
pub const PROGRESS_INTERVAL_MS: u128 = 500;

/// How often, at most, a scan publishes a snapshot of what it knows.
pub const SNAPSHOT_INTERVAL_MS: u128 = 250;

/// Whether enough time has passed since the last progress report for the next one.
pub fn progress_due(elapsed_ms: u128) -> (r: bool)
    ensures
        r == (elapsed_ms >= PROGRESS_INTERVAL_MS),
{
    elapsed_ms >= PROGRESS_INTERVAL_MS
}

/// Whether enough time has passed since the last snapshot for the next one.
pub fn snapshot_due(elapsed_ms: u128) -> (r: bool)
    ensures
        r == (elapsed_ms >= SNAPSHOT_INTERVAL_MS),
{
    elapsed_ms >= SNAPSHOT_INTERVAL_MS
}

} // verus!

verus! {

/// Crediting two chains of directories gives the same sizes in either order,
/// as long as no running size overflows.
pub proof fn lemma_credit_commutes(
    m: Map<Seq<char>, u64>,
    first: Seq<Seq<char>>,
    first_size: u64,
    second: Seq<Seq<char>>,
    second_size: u64,
)
    requires
        forall|k: Seq<char>| size_or_zero(m, k) + first_size + second_size <= u64::MAX,
    ensures
        credited(credited(m, first, first_size), second, second_size) == credited(
            credited(m, second, second_size),
            first,
            first_size,
        ),
{
    let a = credited(credited(m, first, first_size), second, second_size);
    let b = credited(credited(m, second, second_size), first, first_size);
    assert forall|k: Seq<char>| a.contains_key(k) implies a[k] == b[k] by {
        assert(size_or_zero(m, k) + first_size + second_size <= u64::MAX);
    }
    assert(a =~= b);
}

/// The recursive directory sizes a scan reaches do not depend on the order
/// in which the walk delivers its entries: recording two entries in either
/// order gives the same sizes and the same counters.
pub proof fn lemma_sizes_independent_of_walk_order(v: ScanView, a: WalkedEntry, b: WalkedEntry)
    requires
        sizes_within_scanned(v),
        can_take(v, a),
        can_take(after_record(v, a), b),
    ensures
        after_record(after_record(v, a), b).dir_sizes == after_record(
            after_record(v, b),
            a,
        ).dir_sizes,
        after_record(after_record(v, a), b).scanned_files == after_record(
            after_record(v, b),
            a,
        ).scanned_files,
        after_record(after_record(v, a), b).scanned_bytes == after_record(
            after_record(v, b),
            a,
        ).scanned_bytes,
{
    let sa = counted_size(a);
    let sb = counted_size(b);
    let ca = ancestors_to_credit(a.path@, v.root);
    let cb = ancestors_to_credit(b.path@, v.root);
    assert forall|k: Seq<char>| size_or_zero(v.dir_sizes, k) + sa + sb <= u64::MAX by {
        if v.dir_sizes.contains_key(k) {
            assert(v.dir_sizes[k] <= v.scanned_bytes);
        }
    }
    if sa > 0 && sb > 0 {
        lemma_credit_commutes(v.dir_sizes, ca, sa, cb, sb);
    }
}

} // verus!

verus! {

/// The walk never crosses into another device: a child it keeps was read
/// and lies on the root's device.
pub proof fn lemma_kept_child_is_on_root_device(
    probe: Option<ChildProbe>,
    root: Seq<char>,
    excludes: Seq<Seq<char>>,
    root_device: u64,
)
    requires
        keeps_child(probe, root, excludes, root_device),
    ensures
        probe matches Some(c) && c.device == Some(root_device),
{
}

/// In a scan of the whole system (a root that is the path `/`), no
/// directory named among the other volumes' mount points is walked into.
pub proof fn lemma_whole_system_scan_skips_other_volumes(
    c: ChildProbe,
    root: Seq<char>,
    excludes: Seq<Seq<char>>,
    root_device: u64,
    i: int,
)
    requires
        same_path(root, "/"@),
        c.is_dir,
        0 <= i < excludes.len(),
        same_path(excludes[i], c.path@),
    ensures
        !keeps_child(Some(c), root, excludes, root_device),
{
}

} // verus!

verus! {

/// The state after recording the entries `es`, in order, from `v`.
pub open spec fn record_all(v: ScanView, es: Seq<WalkedEntry>) -> ScanView
    decreases es.len(),
{
    if es.len() == 0 {
        v
    } else {
        after_record(record_all(v, es.drop_last()), es.last())
    }
}

/// Whether the counters can take every entry of `es`, recorded in order from `v`.
pub open spec fn can_take_all(v: ScanView, es: Seq<WalkedEntry>) -> bool
    decreases es.len(),
{
    if es.len() == 0 {
        true
    } else {
        can_take_all(v, es.drop_last()) && can_take(record_all(v, es.drop_last()), es.last())
    }
}

/// The bytes of the entries of `es` that lie beneath directory `dir` in a
/// scan rooted at `root`: those whose size is credited to `dir`.
pub open spec fn bytes_beneath(es: Seq<WalkedEntry>, root: Seq<char>, dir: Seq<char>) -> int
    decreases es.len(),
{
    if es.len() == 0 {
        0
    } else {
        bytes_beneath(es.drop_last(), root, dir) + (if ancestors_to_credit(
            es.last().path@,
            root,
        ).contains(dir) {
            counted_size(es.last()) as int
        } else {
            0
        })
    }
}

/// The bytes of all the entries of `es`.
pub open spec fn bytes_counted(es: Seq<WalkedEntry>) -> int
    decreases es.len(),
{
    if es.len() == 0 {
        0
    } else {
        bytes_counted(es.drop_last()) + counted_size(es.last()) as int
    }
}

/// A directory's running size is the total of the bytes of every entry
/// recorded beneath it: after recording `es`, each directory's size has
/// grown by exactly the bytes of the entries of `es` whose ancestors up to
/// the root include it, the byte count by the bytes of all of them, and no
/// directory's size exceeds the byte count.
pub proof fn lemma_directory_size_is_bytes_beneath(v: ScanView, es: Seq<WalkedEntry>, dir: Seq<char>)
    requires
        sizes_within_scanned(v),
        can_take_all(v, es),
    ensures
        size_or_zero(record_all(v, es).dir_sizes, dir) == size_or_zero(v.dir_sizes, dir)
            + bytes_beneath(es, v.root, dir),
        record_all(v, es).scanned_bytes == v.scanned_bytes + bytes_counted(es),
        record_all(v, es).scanned_files == v.scanned_files + es.len(),
        record_all(v, es).root == v.root,
        sizes_within_scanned(record_all(v, es)),
    decreases es.len(),
{
    if es.len() > 0 {
        let rest = es.drop_last();
        let e = es.last();
        lemma_directory_size_is_bytes_beneath(v, rest, dir);
        let w = record_all(v, rest);
        let s = counted_size(e);
        let after = after_record(w, e);
        let chain = ancestors_to_credit(e.path@, w.root);
        if w.dir_sizes.contains_key(dir) {
            assert(w.dir_sizes[dir] <= w.scanned_bytes);
        }
        assert forall|k: Seq<char>| #[trigger] after.dir_sizes.contains_key(k) implies after.dir_sizes[k]
            <= after.scanned_bytes by {
            if w.dir_sizes.contains_key(k) {
                assert(w.dir_sizes[k] <= w.scanned_bytes);
            }
        }
    }
}

} // verus!

verus! {

/// Every parent is shorter than its child: the fact `Path::parent`'s
/// documentation gives, which every call of the parent wrapper states.
pub open spec fn parents_shrink() -> bool {
    forall|q: Seq<char>| #[trigger]
        parent_path(q) matches Some(r) ==> r.len() < q.len()
}

proof fn lemma_chain_shape(start: Option<Seq<char>>, root: Seq<char>, fuel: nat)
    requires
        parents_shrink(),
        start matches Some(p) ==> p.len() < fuel,
    ensures
        rollup_chain(start, root, fuel).len() == 0 <==> start is None,
        rollup_chain(start, root, fuel).len() > 0 ==> Some(rollup_chain(start, root, fuel)[0])
            == start,
        forall|i: int|
            0 <= i < rollup_chain(start, root, fuel).len() - 1 ==> Some(
                #[trigger] rollup_chain(start, root, fuel)[i + 1],
            ) == parent_path(rollup_chain(start, root, fuel)[i]) && !same_path(
                rollup_chain(start, root, fuel)[i],
                root,
            ),
        rollup_chain(start, root, fuel).len() > 0 ==> (same_path(
            rollup_chain(start, root, fuel).last(),
            root,
        ) || parent_path(rollup_chain(start, root, fuel).last()) is None),
    decreases fuel,
{
    match start {
        None => {},
        Some(p) => {
            if !same_path(p, root) {
                let next = parent_path(p);
                assert(next matches Some(r) ==> r.len() < p.len());
                lemma_chain_shape(next, root, (fuel - 1) as nat);
                let rest = rollup_chain(next, root, (fuel - 1) as nat);
                let c = rollup_chain(start, root, fuel);
                assert(c == seq![p] + rest);
                assert(c.len() == rest.len() + 1);
                assert forall|i: int| 0 <= i < c.len() - 1 implies Some(#[trigger] c[i + 1])
                    == parent_path(c[i]) && !same_path(c[i], root) by {
                    if i > 0 {
                        let j = i - 1;
                        assert(c[i] == rest[j]);
                        assert(c[i + 1] == rest[j + 1]);
                        assert(0 <= j < rest.len() - 1);
                        assert(Some(rest[j + 1]) == parent_path(rest[j]) && !same_path(
                            rest[j],
                            root,
                        ));
                    } else {
                        assert(rest.len() > 0);
                        assert(c[0] == p);
                        assert(c[1] == rest[0]);
                        assert(Some(rest[0]) == next);
                    }
                }
                if rest.len() > 0 {
                    assert(c.last() == rest.last());
                }
            }
        },
    }
}

/// The directories an entry's bytes are credited to are all of its
/// ancestors up to the scan's root, whatever the depth: the first is the
/// entry's parent, each next one is the parent of the one before, none
/// before the last is the root, and the last is the root itself or has no
/// parent. (The premise is the fact the parent wrapper states of every
/// path: a parent is shorter than its child.)
pub proof fn lemma_credited_ancestors_are_every_parent_up_to_the_root(
    path: Seq<char>,
    root: Seq<char>,
)
    requires
        parents_shrink(),
    ensures
        ancestors_to_credit(path, root).len() == 0 <==> parent_path(path) is None,
        ancestors_to_credit(path, root).len() > 0 ==> Some(ancestors_to_credit(path, root)[0])
            == parent_path(path),
        forall|i: int|
            0 <= i < ancestors_to_credit(path, root).len() - 1 ==> Some(
                #[trigger] ancestors_to_credit(path, root)[i + 1],
            ) == parent_path(ancestors_to_credit(path, root)[i]) && !same_path(
                ancestors_to_credit(path, root)[i],
                root,
            ),
        ancestors_to_credit(path, root).len() > 0 ==> (same_path(
            ancestors_to_credit(path, root).last(),
            root,
        ) || parent_path(ancestors_to_credit(path, root).last()) is None),
{
    lemma_chain_shape(parent_path(path), root, path.len());
}

/// A file's bytes reach the scan's root: when the root is reached from the
/// entry by going up parent by parent, recording a file of `s > 0` bytes
/// adds exactly `s` to the root's running size (and to every directory on
/// the way).
pub proof fn lemma_recording_a_file_grows_every_ancestor(
    v: ScanView,
    e: WalkedEntry,
    k: int,
)
    requires
        parents_shrink(),
        sizes_within_scanned(v),
        can_take(v, e),
        counted_size(e) > 0,
        0 <= k < ancestors_to_credit(e.path@, v.root).len(),
    ensures
        size_or_zero(after_record(v, e).dir_sizes, ancestors_to_credit(e.path@, v.root)[k])
            == size_or_zero(v.dir_sizes, ancestors_to_credit(e.path@, v.root)[k]) + counted_size(
            e,
        ),
{
    let d = ancestors_to_credit(e.path@, v.root)[k];
    assert(ancestors_to_credit(e.path@, v.root).contains(d));
    if v.dir_sizes.contains_key(d) {
        assert(v.dir_sizes[d] <= v.scanned_bytes);
    }
}

/// The total a scan announces counts exactly the disks the root lies on:
/// no disks count nothing, a disk whose mount point the root lies under adds
/// its used bytes, and any other disk adds nothing.
pub proof fn lemma_announced_total_counts_only_the_root_volumes(
    root: Seq<char>,
    disks: Seq<DiskInfo>,
    d: DiskInfo,
)
    ensures
        used_total(root, Seq::<DiskInfo>::empty()) == 0,
        path_within(root, d.mount_point@) ==> used_total(root, disks.push(d)) == used_total(
            root,
            disks,
        ) + d.used_bytes,
        !path_within(root, d.mount_point@) ==> used_total(root, disks.push(d)) == used_total(
            root,
            disks,
        ),
{
    assert(disks.push(d).drop_last() =~= disks);
}

} // verus!
