//! The text of the report: a header line and one line for each record.

use crate::paint::{paint, plain, tinted, Tint};
use crate::order::stably_sorted;
use crate::scan::MountTable;
use crate::stats::Stats;
use crate::text::{pad_left, pad_right, padded_left, padded_right};
use crate::util::{bar_text, bargraph, iec, iec_text, BAR_WIDTH};
use vstd::prelude::*;
use vstd::string::StringExecFns;

verus! {

/// The width of the columns that hold numbers.
pub const NUMBER_WIDTH: usize = 5;

/// What stands between two columns.
pub open spec fn gap() -> Seq<char> {
    " "@
}

/// The first column of a record's line: the name, left-aligned in `width`
/// characters; that of a network filesystem in cyan.
pub open spec fn name_cell(stat: &Stats, width: nat, lit: bool) -> Seq<char> {
    if stat.network {
        tinted(padded_right(stat.filesystem@, width), Tint::Cyan, lit)
    } else {
        padded_right(stat.filesystem@, width)
    }
}

/// The line of the record `stat`: name, size, used and free space in binary
/// units, the percentage in use, the usage bar and the mount point. The
/// three flags say which coloured parts carry their colour codes.
pub open spec fn row_text(
    stat: &Stats,
    width: nat,
    lit_name: bool,
    lit_filled: bool,
    lit_rest: bool,
) -> Seq<char> {
    name_cell(stat, width, lit_name) + gap() + padded_left(
        iec_text(stat.size as nat),
        NUMBER_WIDTH as nat,
    ) + gap() + padded_left(iec_text(stat.used as nat), NUMBER_WIDTH as nat) + gap() + padded_left(
        iec_text(stat.avail as nat),
        NUMBER_WIDTH as nat,
    ) + gap() + stat.percent.shown() + gap() + padded_right(
        bar_text(stat.percent, lit_filled, lit_rest),
        BAR_WIDTH as nat,
    ) + gap() + stat.mount@
}

/// `out` is the line of `stat`, with or without colour codes.
pub open spec fn is_row(out: Seq<char>, stat: &Stats, width: nat) -> bool {
    exists|lit_name: bool, lit_filled: bool, lit_rest: bool|
        out == #[trigger] row_text(stat, width, lit_name, lit_filled, lit_rest)
}

/// The header line: the seven column titles in yellow, aligned as the
/// columns are. `lit` says for each title whether it carries its colour
/// codes.
pub open spec fn header_text(width: nat, lit: Seq<bool>) -> Seq<char> {
    tinted(padded_right("Filesystem"@, width), Tint::Yellow, lit[0]) + gap() + tinted(
        padded_left("Size"@, NUMBER_WIDTH as nat),
        Tint::Yellow,
        lit[1],
    ) + gap() + tinted(padded_left("Used"@, NUMBER_WIDTH as nat), Tint::Yellow, lit[2]) + gap()
        + tinted(padded_left("Avail"@, NUMBER_WIDTH as nat), Tint::Yellow, lit[3]) + gap() + tinted(
        padded_left("Use%"@, NUMBER_WIDTH as nat),
        Tint::Yellow,
        lit[4],
    ) + gap() + tinted(padded_right(""@, BAR_WIDTH as nat), Tint::Yellow, lit[5]) + gap() + tinted(
        "Mounted on"@,
        Tint::Yellow,
        lit[6],
    )
}

/// `out` is the header line, with or without colour codes.
pub open spec fn is_header(out: Seq<char>, width: nat) -> bool {
    exists|lit: Seq<bool>| lit.len() == 7 && out == #[trigger] header_text(width, lit)
}

/// `text` in `tint`, and whether it came back with colour codes.
fn paint_flagged(text: &str, tint: Tint) -> (out: (String, Ghost<bool>))
    ensures
        out.0@ == tinted(text@, tint, out.1@),
{
    let painted = paint(text, tint);
    let ghost lit = choose|lit: bool| painted@ == tinted(text@, tint, lit);
    (painted, Ghost(lit))
}

/// The header line for a name column of `width` characters.
pub fn header(width: usize) -> (out: String)
    ensures
        is_header(out@, width as nat),
{
    let (mut out, Ghost(l0)) = paint_flagged(pad_right("Filesystem", width).as_str(), Tint::Yellow);
    let (size, Ghost(l1)) = paint_flagged(pad_left("Size", NUMBER_WIDTH).as_str(), Tint::Yellow);
    let (used, Ghost(l2)) = paint_flagged(pad_left("Used", NUMBER_WIDTH).as_str(), Tint::Yellow);
    let (avail, Ghost(l3)) = paint_flagged(pad_left("Avail", NUMBER_WIDTH).as_str(), Tint::Yellow);
    let (share, Ghost(l4)) = paint_flagged(pad_left("Use%", NUMBER_WIDTH).as_str(), Tint::Yellow);
    let (bar, Ghost(l5)) = paint_flagged(pad_right("", BAR_WIDTH).as_str(), Tint::Yellow);
    let (mount, Ghost(l6)) = paint_flagged("Mounted on", Tint::Yellow);
    out.append(" ");
    out.append(size.as_str());
    out.append(" ");
    out.append(used.as_str());
    out.append(" ");
    out.append(avail.as_str());
    out.append(" ");
    out.append(share.as_str());
    out.append(" ");
    out.append(bar.as_str());
    out.append(" ");
    out.append(mount.as_str());
    proof {
        let lit = seq![l0, l1, l2, l3, l4, l5, l6];
        assert(out@ == header_text(width as nat, lit));
    }
    out
}

/// The line of the record `stat` for a name column of `width` characters.
pub fn row(stat: &Stats, width: usize) -> (out: String)
    ensures
        is_row(out@, stat, width as nat),
{
    let name = pad_right(stat.filesystem.as_str(), width);
    let ghost mut lit_name = false;
    let mut out = if stat.is_network() {
        let (cell, Ghost(lit)) = paint_flagged(name.as_str(), Tint::Cyan);
        proof {
            lit_name = lit;
        }
        cell
    } else {
        plain(name.as_str())
    };
    assert(out@ == name_cell(stat, width as nat, lit_name));
    let bar = bargraph(stat.percent);
    let ghost (lit_filled, lit_rest) = choose|lit_filled: bool, lit_rest: bool|
        bar@ == #[trigger] bar_text(stat.percent, lit_filled, lit_rest);
    out.append(" ");
    out.append(pad_left(iec(stat.size).as_str(), NUMBER_WIDTH).as_str());
    out.append(" ");
    out.append(pad_left(iec(stat.used).as_str(), NUMBER_WIDTH).as_str());
    out.append(" ");
    out.append(pad_left(iec(stat.avail).as_str(), NUMBER_WIDTH).as_str());
    out.append(" ");
    out.append(stat.percent.to_text().as_str());
    out.append(" ");
    out.append(pad_right(bar.as_str(), BAR_WIDTH).as_str());
    out.append(" ");
    out.append(stat.mount.as_str());
    assert(out@ == row_text(stat, width as nat, lit_name, lit_filled, lit_rest));
    out
}

/// The report on `table`: the header line, then the records' lines in the
/// order in which the table holds them.
pub fn render(table: &MountTable) -> (lines: Vec<String>)
    ensures
        lines.len() == table.entries().len() + 1,
        is_header(lines@[0]@, table.width()),
        forall|k: int|
            1 <= k < lines.len() ==> is_row(
                (#[trigger] lines@[k])@,
                &table.entries()[k - 1],
                table.width(),
            ),
{
    let width = table.max_width();
    let stats = table.stats();
    let mut lines: Vec<String> = Vec::new();
    lines.push(header(width));
    let mut i: usize = 0;
    while i < stats.len()
        invariant
            i <= stats.len(),
            stats@ == table.entries(),
            width == table.width(),
            lines.len() == i + 1,
            is_header(lines@[0]@, table.width()),
            forall|k: int|
                1 <= k < lines.len() ==> is_row(
                    (#[trigger] lines@[k])@,
                    &table.entries()[k - 1],
                    table.width(),
                ),
        decreases stats.len() - i,
    {
        lines.push(row(&stats[i], width));
        i += 1;
    }
    lines
}

/// Sorts `table` into the order of the report and gives the report's
/// lines: the header, then one line for each record.
pub fn report(table: &mut MountTable) -> (lines: Vec<String>)
    requires
        old(table).wf(),
    ensures
        final(table).wf(),
        final(table).width() == old(table).width(),
        final(table).shows_all() == old(table).shows_all(),
        stably_sorted(old(table).entries(), final(table).entries()),
        lines.len() == final(table).entries().len() + 1,
        is_header(lines@[0]@, final(table).width()),
        forall|k: int|
            1 <= k < lines.len() ==> is_row(
                (#[trigger] lines@[k])@,
                &final(table).entries()[k - 1],
                final(table).width(),
            ),
{
    table.sort();
    render(table)
}

} // verus!
