//! The volume list: which mounted disks are shown, and what is shown of each.
//!
//! Reading the machine's disks is I/O and happens outside the library; the
//! library receives each disk's raw readings as a [`DiskReading`] and decides
//! which disks are listed and what their derived figures are.

use crate::paths::has_prefix;
use vstd::prelude::*;

verus! {

/// The raw figures the operating system reports for one mounted disk.
pub struct DiskReading {
    pub name: String,
    pub mount_point: String,
    pub file_system: String,
    pub kind: String,
    pub is_removable: bool,
    pub is_read_only: bool,
    pub total_bytes: u64,
    pub available_bytes: u64,
}

/// One disk as the volume picker lists it.
///
/// The share of the disk in use is a ratio of `used_bytes` to
/// `total_bytes`; it is a floating-point figure and is computed where the
/// list is shown.
pub struct DiskInfo {
    pub name: String,
    pub mount_point: String,
    pub file_system: String,
    pub kind: String,
    pub is_removable: bool,
    pub is_read_only: bool,
    pub total_bytes: u64,
    pub available_bytes: u64,
    pub used_bytes: u64,
}

/// The mount points under which macOS mounts its internal APFS system
/// volumes, which duplicate a disk already listed under its real mount point.
pub open spec fn is_system_volume_mount(mount_point: Seq<char>) -> bool {
    "/System/Volumes/"@.is_prefix_of(mount_point)
}

/// Bytes in use: total minus available, or 0 when the system reports more
/// available than total.
pub open spec fn used_bytes_of(total_bytes: u64, available_bytes: u64) -> u64 {
    if available_bytes <= total_bytes {
        (total_bytes - available_bytes) as u64
    } else {
        0
    }
}

/// The listed form of one reading: the derived used figure, and the mount
/// point standing in for an empty disk name.
pub open spec fn disk_info_of(d: DiskReading) -> DiskInfo {
    DiskInfo {
        name: if d.name@.len() == 0 { d.mount_point } else { d.name },
        mount_point: d.mount_point,
        file_system: d.file_system,
        kind: d.kind,
        is_removable: d.is_removable,
        is_read_only: d.is_read_only,
        total_bytes: d.total_bytes,
        available_bytes: d.available_bytes,
        used_bytes: used_bytes_of(d.total_bytes, d.available_bytes),
    }
}

/// The listed form of a reading shows the reading as it came: the flags,
/// mount point, file system, kind and byte counts unchanged, the used bytes
/// as the total less the available bytes (none when more is available than
/// the total), and the disk's own name unless it is empty, in which case the
/// mount point.
pub proof fn lemma_listed_form_keeps_the_readings(d: DiskReading)
    ensures
        disk_info_of(d).is_removable == d.is_removable,
        disk_info_of(d).is_read_only == d.is_read_only,
        disk_info_of(d).mount_point == d.mount_point,
        disk_info_of(d).file_system == d.file_system,
        disk_info_of(d).kind == d.kind,
        disk_info_of(d).total_bytes == d.total_bytes,
        disk_info_of(d).available_bytes == d.available_bytes,
        d.available_bytes <= d.total_bytes ==> disk_info_of(d).used_bytes + d.available_bytes
            == d.total_bytes,
        d.available_bytes > d.total_bytes ==> disk_info_of(d).used_bytes == 0,
        d.name@.len() > 0 ==> disk_info_of(d).name == d.name,
        d.name@.len() == 0 ==> disk_info_of(d).name == d.mount_point,
{
}

/// The readings that the volume list keeps: all but the system-volume mounts.
pub open spec fn is_listed(d: DiskReading) -> bool {
    !is_system_volume_mount(d.mount_point@)
}

/// Whether `mount_point` is one of macOS's internal APFS system-volume mounts
/// (such as `/System/Volumes/Data`), which are not listed separately.
pub fn is_internal_macos_volume(mount_point: &str) -> (r: bool)
    ensures
        r == is_system_volume_mount(mount_point@),
{
    has_prefix(mount_point, "/System/Volumes/")
}

/// Computes the listed form of a disk from its raw readings.
pub fn build_disk_info(
    name: String,
    mount_point: String,
    file_system: String,
    kind: String,
    is_removable: bool,
    is_read_only: bool,
    total_bytes: u64,
    available_bytes: u64,
) -> (info: DiskInfo)
    ensures
        info == disk_info_of(
            DiskReading {
                name,
                mount_point,
                file_system,
                kind,
                is_removable,
                is_read_only,
                total_bytes,
                available_bytes,
            },
        ),
        info.used_bytes <= info.total_bytes,
{
    let used_bytes = total_bytes.saturating_sub(available_bytes);
    let shown_name = if name.as_str().is_empty() {
        mount_point.clone()
    } else {
        name
    };
    DiskInfo {
        name: shown_name,
        mount_point,
        file_system,
        kind,
        is_removable,
        is_read_only,
        total_bytes,
        available_bytes,
        used_bytes,
    }
}

/// The volume list: every reading that is not a system-volume mount, in the
/// order given, in its listed form.
pub fn list_disks(readings: &Vec<DiskReading>) -> (listed: Vec<DiskInfo>)
    ensures
        listed@ == readings@.filter(|d: DiskReading| is_listed(d)).map_values(
            |d: DiskReading| disk_info_of(d),
        ),
        forall|i: int|
            0 <= i < listed@.len() ==> !is_system_volume_mount(#[trigger] listed@[i].mount_point@),
{
    let ghost keep = |d: DiskReading| is_listed(d);
    let ghost shown = |d: DiskReading| disk_info_of(d);
    let mut listed: Vec<DiskInfo> = Vec::new();
    let n = readings.len();
    let mut i: usize = 0;
    while i < n
        invariant
            n == readings@.len(),
            i <= n,
            keep == (|d: DiskReading| is_listed(d)),
            shown == (|d: DiskReading| disk_info_of(d)),
            listed@ == readings@.take(i as int).filter(keep).map_values(shown),
        decreases n - i,
    {
        let d = &readings[i];
        proof {
            let t = readings@.take(i + 1);
            assert(t.drop_last() =~= readings@.take(i as int));
            assert(t.last() == readings@[i as int]);
            reveal_with_fuel(Seq::filter, 1);
        }
        if !is_internal_macos_volume(d.mount_point.as_str()) {
            let info = build_disk_info(
                d.name.clone(),
                d.mount_point.clone(),
                d.file_system.clone(),
                d.kind.clone(),
                d.is_removable,
                d.is_read_only,
                d.total_bytes,
                d.available_bytes,
            );
            proof {
                let t = readings@.take(i + 1);
                assert(info == disk_info_of(readings@[i as int]));
                assert(keep(t.last()));
                assert(t.filter(keep) == t.drop_last().filter(keep).push(t.last()));
            }
            listed.push(info);
            proof {
                assert(listed@ =~= readings@.take(i + 1).filter(keep).map_values(shown));
            }
        } else {
            proof {
                assert(listed@ =~= readings@.take(i + 1).filter(keep).map_values(shown));
            }
        }
        i = i + 1;
    }
    proof {
        assert(readings@.take(n as int) =~= readings@);
        let kept = readings@.filter(keep);
        assert(listed@ == kept.map_values(shown));
        assert(listed@.len() == kept.len());
        assert forall|j: int| 0 <= j < listed@.len() implies !is_system_volume_mount(
            #[trigger] listed@[j].mount_point@,
        ) by {
            readings@.lemma_filter_pred(keep, j);
            assert(keep(kept[j]));
        }
    }
    listed
}

} // verus!
