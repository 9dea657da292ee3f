# disk_inventory

The verified core of Disk Inventory, a browser of what takes up space on a
disk: a volume picker, a live background scan, and largest-first directory
listings.

- `src/` is the library, verified with Verus:
  - `paths` — path questions on strings (same path, parent, file stem,
    prefix), answered by `std::path` behind small trusted wrappers;
  - `disks` — which mounted disks are listed and what is shown of them;
  - `filesystem` — entry types, the index of children by parent directory,
    back-filling directory sizes, and sorted directory listings;
  - `scan` — the scan as a state machine: each walked entry is counted,
    grouped under its parent, and its bytes are rolled up through every
    ancestor up to the scan's root; snapshots are published to readers;
  - `windows` — the table of volume windows and their labels;
  - `shell_actions` — naming and ordering the applications that can open a file;
  - `pool` — the size of the worker pool;
  - `progress` — the command-line progress bar.
- `tests/` exercises the library on concrete values.
- `app/` is the program around it: reading the mounted disks, walking the
  filesystem, timing progress reports, JSON shapes for the frontend, and the
  macOS-only system calls.

Sizes are physical: a file counts for the blocks allocated to it, not its
logical length. A scan publishes a snapshot about four times a second and
reports progress about twice a second. Every scan takes a generation one
larger than the previous scan's, and all its messages carry it.

The desktop shell (Tauri windows and command registration) is not part of
this crate; `app/` drives the same commands from the terminal.
