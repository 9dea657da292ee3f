//! The terminal progress display of a scan run from the command line.

use num_format::{Locale, ToFormattedString};
use vstd::prelude::*;

verus! {

/// Width of the progress bar, in characters.
pub const BAR_WIDTH: u64 = 40;

/// The share of the volume's used bytes scanned so far, in whole percent
/// (rounded down); `None` when the total is unknown (0), in which case the
/// display keeps its previous figure.
pub fn progress_percent(scanned_bytes: u64, total_bytes: u64) -> (r: Option<u64>)
    requires
        total_bytes > 0 ==> scanned_bytes * 100 <= u64::MAX,
    ensures
        r == (if total_bytes > 0 {
            Some(((scanned_bytes * 100) / (total_bytes as int)) as u64)
        } else {
            None
        }),
{
    if total_bytes > 0 {
        Some((scanned_bytes * 100) / total_bytes)
    } else {
        None
    }
}

/// `count` copies of `c`.
pub open spec fn repeated(c: char, count: nat) -> Seq<char> {
    Seq::new(count, |i: int| c)
}

/// How many of the bar's cells are filled at `percent` (capped at 100).
pub open spec fn filled_cells(percent: u64) -> nat {
    let p = if percent > 100 { 100 } else { percent };
    ((p * BAR_WIDTH) / 100) as nat
}

/// The progress bar at `percent`: filled cells as `#`, the rest as `-`,
/// `BAR_WIDTH` cells in all.
pub open spec fn bar_text(percent: u64) -> Seq<char> {
    repeated('#', filled_cells(percent)) + repeated('-', (BAR_WIDTH - filled_cells(percent)) as nat)
}

fn append_repeated(out: &mut String, piece: &str, c: Ghost<char>, count: u64)
    requires
        piece@ == seq![c@],
    ensures
        final(out)@ == old(out)@ + repeated(c@, count as nat),
{
    let mut i: u64 = 0;
    while i < count
        invariant
            i <= count,
            piece@ == seq![c@],
            out@ == old(out)@ + repeated(c@, i as nat),
        decreases count - i,
    {
        out.append(piece);
        i = i + 1;
        assert(out@ =~= old(out)@ + repeated(c@, i as nat));
    }
}

/// The progress bar drawn at `percent` (see [`bar_text`]).
pub fn progress_bar(percent: u64) -> (bar: String)
    ensures
        bar@ == bar_text(percent),
        bar@.len() == BAR_WIDTH,
{
    let p = if percent > 100 {
        100
    } else {
        percent
    };
    let filled = (p * BAR_WIDTH) / 100;
    let mut bar = String::new();
    proof {
        reveal_strlit("#");
        reveal_strlit("-");
        assert("#"@ =~= seq!['#']);
        assert("-"@ =~= seq!['-']);
    }
    append_repeated(&mut bar, "#", Ghost('#'), filled);
    append_repeated(&mut bar, "-", Ghost('-'), BAR_WIDTH - filled);
    assert(bar@ =~= bar_text(percent));
    bar
}

/// What `num_format`'s `to_formatted_string(&Locale::pt)` gives for `n`:
/// its decimal digits grouped by thousands in the Portuguese style.
pub uninterp spec fn grouped_pt(n: u64) -> Seq<char>;

/// Trusted: `u64::to_formatted_string(&Locale::pt)` from `num_format`, the
/// grouping the progress display uses. The contract names the result
/// `grouped_pt(n)` and says nothing more of it.
#[verifier::external_body]
fn group_digits(n: u64) -> (r: String)
    ensures
        r@ == grouped_pt(n),
{
    n.to_formatted_string(&Locale::pt)
}

/// The counts line of the progress display, from the grouped file count
/// and byte count: `<files> files scanned, <bytes> bytes`.
pub open spec fn counts_line_text(files: Seq<char>, bytes: Seq<char>) -> Seq<char> {
    files + " files scanned, "@ + bytes + " bytes"@
}

/// Builds the counts line from the file count and byte count already
/// grouped into text.
pub fn counts_line_from(files_text: String, bytes_text: &str) -> (r: String)
    ensures
        r@ == counts_line_text(files_text@, bytes_text@),
{
    let line = files_text.concat(" files scanned, ").concat(bytes_text).concat(" bytes");
    line
}

/// The counts line of the progress display for `files` entries and
/// `bytes` bytes scanned, each grouped by thousands.
pub fn progress_counts_line(files: u64, bytes: u64) -> (r: String)
    ensures
        r@ == counts_line_text(grouped_pt(files), grouped_pt(bytes)),
{
    let bytes_text = group_digits(bytes);
    counts_line_from(group_digits(files), bytes_text.as_str())
}

} // verus!
