//! Volume windows: which window shows which volume, and how windows are named.
//!
//! Creating and closing the native windows is the caller's part; the library
//! keeps the table from window label to mount point and decides each new
//! window's label and title.

use crate::paths::texts;
use vstd::hash_map::StringHashMap;
use vstd::prelude::*;

verus! {

/// The mount point shown by each open volume window, by window label.
pub struct VolumeWindowState {
    windows: StringHashMap<String>,
}

impl View for VolumeWindowState {
    type V = Map<Seq<char>, Seq<char>>;

    closed spec fn view(&self) -> Map<Seq<char>, Seq<char>> {
        self.windows@.map_values(|m: String| m@)
    }
}

impl VolumeWindowState {
    /// A table with no windows.
    pub fn new() -> (r: VolumeWindowState)
        ensures
            r@ == Map::<Seq<char>, Seq<char>>::empty(),
    {
        let r = VolumeWindowState { windows: StringHashMap::new() };
        assert(r@ =~= Map::<Seq<char>, Seq<char>>::empty());
        r
    }

    /// Whether no window is recorded.
    pub fn is_empty(&self) -> (r: bool)
        ensures
            r == (self@.dom() == Set::<Seq<char>>::empty()),
    {
        let r = self.windows.is_empty();
        proof {
            if !r {
                let k = choose|k: Seq<char>| self.windows@.contains_key(k);
                assert(self@.dom().contains(k));
            } else {
                assert(self@.dom() =~= Set::<Seq<char>>::empty());
            }
        }
        r
    }

    /// Records that the window `label` shows the volume at `mount_point`.
    pub fn remember(&mut self, label: String, mount_point: String)
        ensures
            final(self)@ == old(self)@.insert(label@, mount_point@),
    {
        self.windows.insert(label, mount_point);
        assert(self@ =~= old(self)@.insert(label@, mount_point@));
    }

    /// The mount point the window `label` shows, if it is recorded.
    pub fn mount_point_of(&self, label: &str) -> (r: Option<String>)
        ensures
            match r {
                Some(m) => self@.contains_key(label@) && m@ == self@[label@],
                None => !self@.contains_key(label@),
            },
    {
        match self.windows.get(label) {
            Some(m) => Some(m.clone()),
            None => None,
        }
    }
}

impl Default for VolumeWindowState {
    fn default() -> (r: VolumeWindowState)
        ensures
            r@ == Map::<Seq<char>, Seq<char>>::empty(),
    {
        VolumeWindowState::new()
    }
}

/// Forgets a destroyed window's mount point, so the table does not keep
/// stale labels; every other window is kept.
pub fn forget_window(label: &str, state: &mut VolumeWindowState)
    ensures
        final(state)@ == old(state)@.remove(label@),
{
    state.windows.remove(label);
    assert(state@ =~= old(state)@.remove(label@));
}

/// The mount point shown by the window labelled `label`, if it is a volume window.
pub fn get_window_mount_point(label: &str, state: &VolumeWindowState) -> (r: Option<String>)
    ensures
        match r {
            Some(m) => state@.contains_key(label@) && m@ == state@[label@],
            None => !state@.contains_key(label@),
        },
{
    state.mount_point_of(label)
}

/// Hands out window numbers: each call returns the current number and
/// advances the counter by one (wrapping around at the top, as an atomic
/// counter's `fetch_add` does).
pub struct WindowCounter {
    next: u64,
}

impl View for WindowCounter {
    type V = u64;

    closed spec fn view(&self) -> u64 {
        self.next
    }
}

impl WindowCounter {
    /// A counter that starts at 0.
    pub fn new() -> (r: WindowCounter)
        ensures
            r@ == 0,
    {
        WindowCounter { next: 0 }
    }

    /// Returns the current number and advances the counter.
    pub fn fetch_add(&mut self) -> (r: u64)
        ensures
            r == old(self)@,
            final(self)@ == (if old(self)@ < u64::MAX {
                (old(self)@ + 1) as u64
            } else {
                0
            }),
    {
        let r = self.next;
        self.next = self.next.wrapping_add(1);
        r
    }
}

/// The decimal digit `d` (below 10) as a character.
pub open spec fn digit_char(d: nat) -> char {
    if d == 0 {
        '0'
    } else if d == 1 {
        '1'
    } else if d == 2 {
        '2'
    } else if d == 3 {
        '3'
    } else if d == 4 {
        '4'
    } else if d == 5 {
        '5'
    } else if d == 6 {
        '6'
    } else if d == 7 {
        '7'
    } else if d == 8 {
        '8'
    } else {
        '9'
    }
}

/// The decimal numeral of `n`, without leading zeros.
pub open spec fn decimal(n: nat) -> Seq<char>
    decreases n,
{
    if n < 10 {
        seq![digit_char(n)]
    } else {
        decimal(n / 10).push(digit_char(n % 10))
    }
}

/// The label of the volume window with number `id`.
pub open spec fn window_label(id: u64) -> Seq<char> {
    "volume-"@ + decimal(id as nat)
}

fn digit_text(d: u64) -> (r: &'static str)
    requires
        d < 10,
    ensures
        r@ == seq![digit_char(d as nat)],
{
    if d == 0 {
        proof {
            reveal_strlit("0");
        }
        "0"
    } else if d == 1 {
        proof {
            reveal_strlit("1");
        }
        "1"
    } else if d == 2 {
        proof {
            reveal_strlit("2");
        }
        "2"
    } else if d == 3 {
        proof {
            reveal_strlit("3");
        }
        "3"
    } else if d == 4 {
        proof {
            reveal_strlit("4");
        }
        "4"
    } else if d == 5 {
        proof {
            reveal_strlit("5");
        }
        "5"
    } else if d == 6 {
        proof {
            reveal_strlit("6");
        }
        "6"
    } else if d == 7 {
        proof {
            reveal_strlit("7");
        }
        "7"
    } else if d == 8 {
        proof {
            reveal_strlit("8");
        }
        "8"
    } else {
        proof {
            reveal_strlit("9");
        }
        "9"
    }
}

/// Appends the decimal numeral of `n` to `out`.
fn append_decimal(out: &mut String, n: u64)
    ensures
        final(out)@ == old(out)@ + decimal(n as nat),
    decreases n,
{
    if n < 10 {
        out.append(digit_text(n));
    } else {
        append_decimal(out, n / 10);
        out.append(digit_text(n % 10));
        assert(final(out)@ =~= old(out)@ + decimal(n as nat));
    }
}

/// The label of the volume window with number `id`: `volume-` followed by
/// the number in decimal.
pub fn volume_window_label(id: u64) -> (r: String)
    ensures
        r@ == window_label(id),
{
    let mut label = String::from_str("volume-");
    append_decimal(&mut label, id);
    label
}

proof fn lemma_decimal_len(n: nat)
    ensures
        decimal(n).len() >= 1,
        n >= 10 ==> decimal(n).len() >= 2,
    decreases n,
{
    if n >= 10 {
        lemma_decimal_len(n / 10);
    }
}

/// Distinct numbers have distinct decimal numerals.
pub proof fn lemma_decimal_injective(a: nat, b: nat)
    requires
        decimal(a) == decimal(b),
    ensures
        a == b,
    decreases a,
{
    lemma_decimal_len(a);
    lemma_decimal_len(b);
    if a < 10 && b < 10 {
        assert(decimal(a) == seq![digit_char(a)]);
        assert(decimal(b) == seq![digit_char(b)]);
        assert(seq![digit_char(a)][0] == digit_char(a));
        assert(seq![digit_char(b)][0] == digit_char(b));
        assert(decimal(a)[0] == decimal(b)[0]);
        assert(digit_char(a) == digit_char(b));
        assert(a == b);
    } else if a >= 10 && b >= 10 {
        let da = decimal(a);
        let db = decimal(b);
        assert(da.last() == db.last());
        assert(digit_char(a % 10) == digit_char(b % 10));
        assert(a % 10 == b % 10);
        assert(da.drop_last() =~= decimal(a / 10));
        assert(db.drop_last() =~= decimal(b / 10));
        lemma_decimal_injective(a / 10, b / 10);
        assert(a == 10 * (a / 10) + a % 10);
        assert(b == 10 * (b / 10) + b % 10);
    } else {
        assert(decimal(a).len() != decimal(b).len());
    }
}

/// Windows with different numbers get different labels, so every volume
/// window opened from one counter has a label of its own.
pub proof fn lemma_window_labels_distinct(a: u64, b: u64)
    requires
        a != b,
    ensures
        window_label(a) != window_label(b),
{
    if window_label(a) == window_label(b) {
        let prefix = "volume-"@;
        assert(window_label(a).skip(prefix.len() as int) =~= decimal(a as nat));
        assert(window_label(b).skip(prefix.len() as int) =~= decimal(b as nat));
        lemma_decimal_injective(a as nat, b as nat);
    }
}

/// What the caller needs to open a volume window: its label and its title.
pub struct VolumeWindowPlan {
    pub label: String,
    pub title: String,
}

/// Registers a new volume window for the volume at `mount_point`: takes the
/// next window number, records the window's mount point under its label, and
/// gives the label and the title (`Disk Inventory — ` and the mount point)
/// the window is to be created with.
pub fn open_volume_window(
    state: &mut VolumeWindowState,
    counter: &mut WindowCounter,
    mount_point: String,
) -> (plan: VolumeWindowPlan)
    ensures
        plan.label@ == window_label(old(counter)@),
        plan.title@ == "Disk Inventory — "@ + mount_point@,
        final(state)@ == old(state)@.insert(plan.label@, mount_point@),
        final(counter)@ == (if old(counter)@ < u64::MAX {
            (old(counter)@ + 1) as u64
        } else {
            0
        }),
{
    let id = counter.fetch_add();
    let label = volume_window_label(id);
    state.remember(label.clone(), mount_point.clone());
    let title = String::from_str("Disk Inventory — ").concat(mount_point.as_str());
    VolumeWindowPlan { label, title }
}

} // verus!

verus! {

/// What a read gives back of a registration: right after a window is
/// recorded, its label reads back its mount point.
pub proof fn lemma_registered_window_reads_back(
    table: Map<Seq<char>, Seq<char>>,
    label: Seq<char>,
    mount_point: Seq<char>,
)
    ensures
        table.insert(label, mount_point).contains_key(label),
        table.insert(label, mount_point)[label] == mount_point,
{
}

/// Forgetting a window touches no other window, and forgetting it twice is
/// forgetting it once.
pub proof fn lemma_forget_window_is_local(
    table: Map<Seq<char>, Seq<char>>,
    label: Seq<char>,
    other: Seq<char>,
)
    requires
        other != label,
    ensures
        table.remove(label).contains_key(other) == table.contains_key(other),
        table.contains_key(other) ==> table.remove(label)[other] == table[other],
        !table.remove(label).contains_key(label),
        table.remove(label).remove(label) == table.remove(label),
{
    assert(table.remove(label).remove(label) =~= table.remove(label));
}

} // verus!
