//! Formatting of byte counts and usage bars, and the rules on mount source
//! names.

use crate::paint::{lemma_tinted_count, paint, reset_code, tint_code, tinted, Tint};
use crate::percent::{lemma_tens_bound, round_half_even, Percent};
use crate::text::{
    count_of, decimal, decimal_text, has_prefix, lemma_count_concat, lemma_count_run,
    lemma_decimal_len, run, run_text, same_text,
};
use vstd::prelude::*;
use vstd::string::StringExecFns;

verus! {

/// How many unit prefixes the table of `unit_suffix` holds.
pub const UNITS: usize = 9;

/// The width of a usage bar, in characters.
pub const BAR_WIDTH: usize = 20;

/// The character that a usage bar is drawn with.
pub open spec fn block() -> char {
    '■'
}

/// 1024 to the power of `i`.
pub open spec fn unit_scale(i: nat) -> nat
    decreases i,
{
    if i == 0 {
        1
    } else {
        1024 * unit_scale((i - 1) as nat)
    }
}

/// The index of the largest binary unit that does not exceed `n`: the whole
/// part of the logarithm of `n` to base 1024, and zero for a count of zero.
pub open spec fn unit_index(n: nat) -> nat
    decreases n,
{
    if n < 1024 {
        0
    } else {
        1 + unit_index(n / 1024)
    }
}

/// The prefix of the binary unit with index `i`.
pub open spec fn unit_suffix(i: nat) -> Seq<char> {
    if i == 0 {
        Seq::empty()
    } else if i == 1 {
        seq!['k']
    } else if i == 2 {
        seq!['M']
    } else if i == 3 {
        seq!['G']
    } else if i == 4 {
        seq!['T']
    } else if i == 5 {
        seq!['P']
    } else if i == 6 {
        seq!['E']
    } else if i == 7 {
        seq!['Z']
    } else {
        seq!['Y']
    }
}

/// A byte count in its largest binary unit: the count divided by the unit
/// and rounded to a whole number, then the unit's prefix.
pub open spec fn iec_text(n: nat) -> Seq<char> {
    decimal(round_half_even(n, unit_scale(unit_index(n)))) + unit_suffix(unit_index(n))
}

/// The first seven powers of 1024; the seventh exceeds every `u64`.
pub proof fn lemma_unit_scale_values()
    ensures
        unit_scale(0) == 1,
        unit_scale(1) == 0x400,
        unit_scale(2) == 0x10_0000,
        unit_scale(3) == 0x4000_0000,
        unit_scale(4) == 0x100_0000_0000,
        unit_scale(5) == 0x4_0000_0000_0000,
        unit_scale(6) == 0x1000_0000_0000_0000,
        unit_scale(7) == 0x1000_0000_0000_0000 * 1024,
{
    reveal_with_fuel(unit_scale, 8);
}

/// The unit that is chosen holds the count: `n` lies between the chosen
/// power of 1024 and the next.
pub proof fn lemma_unit_index_brackets(n: nat)
    requires
        n >= 1,
    ensures
        unit_scale(unit_index(n)) <= n < unit_scale(unit_index(n) + 1),
    decreases n,
{
    if n >= 1024 {
        lemma_unit_index_brackets(n / 1024);
        let i = unit_index(n / 1024);
        assert(unit_scale(i + 1) == 1024 * unit_scale(i));
        assert(unit_scale(i + 2) == 1024 * unit_scale(i + 1));
    } else {
        reveal_with_fuel(unit_scale, 2);
    }
}

/// No 64-bit byte count selects a unit beyond the table: the index is at
/// most six, the table holds nine.
pub proof fn lemma_unit_index_in_table(n: nat)
    requires
        n <= u64::MAX,
    ensures
        unit_index(n) <= 6,
        unit_index(n) < UNITS,
{
    reveal_with_fuel(unit_index, 8);
}

/// A byte count never takes more than the five characters of its column:
/// at most four digits and the unit's letter.
pub proof fn lemma_iec_width(n: nat)
    ensures
        1 <= iec_text(n).len() <= 5,
{
    let i = unit_index(n);
    let scale = unit_scale(i);
    if n >= 1 {
        lemma_unit_index_brackets(n);
        assert(unit_scale(i + 1) == 1024 * scale);
        assert(n / scale <= 1023) by (nonlinear_arith)
            requires
                1 <= scale <= n < 1024 * scale,
        ;
    } else {
        assert(unit_scale(0) == 1);
    }
    lemma_decimal_len(round_half_even(n, scale));
}

/// The prefix of the binary unit with index `i`.
pub fn unit_name(i: usize) -> (out: &'static str)
    requires
        i < UNITS,
    ensures
        out@ == unit_suffix(i as nat),
{
    proof {
        reveal_strlit("");
        reveal_strlit("k");
        reveal_strlit("M");
        reveal_strlit("G");
        reveal_strlit("T");
        reveal_strlit("P");
        reveal_strlit("E");
        reveal_strlit("Z");
        reveal_strlit("Y");
    }
    let out = if i == 0 {
        ""
    } else if i == 1 {
        "k"
    } else if i == 2 {
        "M"
    } else if i == 3 {
        "G"
    } else if i == 4 {
        "T"
    } else if i == 5 {
        "P"
    } else if i == 6 {
        "E"
    } else if i == 7 {
        "Z"
    } else {
        "Y"
    };
    assert(out@ =~= unit_suffix(i as nat));
    out
}

/// A byte count as a short text in binary units: `1536` is `2k`.
pub fn iec(n: u64) -> (out: String)
    ensures
        out@ == iec_text(n as nat),
{
    let mut i: usize = 0;
    let mut p: u64 = 1;
    proof {
        lemma_unit_scale_values();
    }
    while n / p >= 1024
        invariant
            p >= 1,
            p == unit_scale(i as nat),
            i <= 6,
            unit_index(n as nat) == i + unit_index((n / p) as nat),
        decreases n / p,
    {
        proof {
            lemma_unit_scale_values();
            assert(n >= 1024 * p) by (nonlinear_arith)
                requires
                    n / p >= 1024,
                    p >= 1,
            ;
            vstd::arithmetic::div_mod::lemma_div_denominator(n as int, p as int, 1024);
            assert(p * 1024 == 1024 * p) by (nonlinear_arith);
        }
        p = p * 1024;
        i = i + 1;
    }
    let q: u64 = n / p;
    let r: u64 = n % p;
    proof {
        assert(q + 1 <= n || r == 0) by (nonlinear_arith)
            requires
                q == n / p,
                r == n % p,
                p >= 1,
                n >= 0,
        ;
    }
    let rounded: u64 = if r < p - r {
        q
    } else if r > p - r {
        q + 1
    } else if q % 2 == 0 {
        q
    } else {
        q + 1
    };
    assert(rounded == round_half_even(n as nat, p as nat));
    let mut out = decimal_text(rounded);
    out.append(unit_name(i));
    out
}

/// Whether `fs` names a filesystem that is no storage of its own: one of a
/// fixed list of names, or a name with one of two fixed beginnings.
pub open spec fn is_virtual_name(fs: Seq<char>) -> bool {
    ||| fs == "dev"@
    ||| fs == "devtmpfs"@
    ||| fs == "efivarfs"@
    ||| fs == "fuse-overlayfs"@
    ||| fs == "portal"@
    ||| fs == "run"@
    ||| fs == "shm"@
    ||| fs == "tmpfs"@
    ||| "/dev/loop"@.is_prefix_of(fs)
    ||| "systemd-"@.is_prefix_of(fs)
}

/// Whether the mount source `fs` is hidden unless all filesystems are asked
/// for.
pub fn is_virtual(fs: &str) -> (hidden: bool)
    ensures
        hidden == is_virtual_name(fs@),
{
    same_text(fs, "dev") || same_text(fs, "devtmpfs") || same_text(fs, "efivarfs") || same_text(
        fs,
        "fuse-overlayfs",
    ) || same_text(fs, "portal") || same_text(fs, "run") || same_text(fs, "shm") || same_text(
        fs,
        "tmpfs",
    ) || has_prefix(fs, "/dev/loop") || has_prefix(fs, "systemd-")
}

/// Whether `path` lies under the device mapper's directory.
pub open spec fn is_mapper_name(path: Seq<char>) -> bool {
    "/dev/mapper/"@.is_prefix_of(path)
}

/// The name under which the mount source `path` is shown: the path that it
/// resolves to, where it is a device-mapper path and was resolved, else
/// `path` itself.
pub open spec fn display_name(path: Seq<char>, resolved: Option<Seq<char>>) -> Seq<char> {
    match resolved {
        Some(target) if is_mapper_name(path) => target,
        _ => path,
    }
}

/// The views of an optional string.
pub open spec fn view_of(text: Option<String>) -> Option<Seq<char>> {
    match text {
        Some(t) => Some(t@),
        None => None,
    }
}

/// Whether `path` is a device-mapper path, which the caller is to resolve
/// to its canonical path before it is shown.
pub fn is_mapper_path(path: &str) -> (mapped: bool)
    ensures
        mapped == is_mapper_name(path@),
{
    has_prefix(path, "/dev/mapper/")
}

/// The display name of the mount source `path`. `resolved` is the canonical
/// path that `path` resolves to, or `None` where resolving failed or was not
/// tried; it counts for device-mapper paths only.
pub fn shorten_lv(path: &str, resolved: Option<String>) -> (out: String)
    ensures
        out@ == display_name(path@, view_of(resolved)),
{
    if is_mapper_path(path) {
        if let Some(target) = resolved {
            return target;
        }
    }
    String::from_str(path)
}

/// The colour of the filled part of the bar: red above 90 percent, yellow
/// above 75, else green.
pub open spec fn bar_tint(percent: Percent) -> Tint {
    if percent.exceeds(90) {
        Tint::Red
    } else if percent.exceeds(75) {
        Tint::Yellow
    } else {
        Tint::Green
    }
}

/// The number of filled characters of the bar: two for every ten percent.
pub open spec fn filled_cells(percent: Percent) -> nat {
    2 * percent.tens()
}

/// The bar for `percent`: the filled part in its colour, then the rest
/// dimmed; each part marked up or not as `lit_filled` and `lit_rest` say.
pub open spec fn bar_text(percent: Percent, lit_filled: bool, lit_rest: bool) -> Seq<char> {
    tinted(run(block(), filled_cells(percent)), bar_tint(percent), lit_filled) + tinted(
        run(block(), (BAR_WIDTH - filled_cells(percent)) as nat),
        Tint::DimWhite,
        lit_rest,
    )
}

/// A bar holds exactly twenty block characters, colour codes or none: the
/// filled ones and the rest.
pub proof fn lemma_bar_blocks(percent: Percent, lit_filled: bool, lit_rest: bool)
    requires
        percent.in_range(),
    ensures
        filled_cells(percent) <= BAR_WIDTH,
        count_of(bar_text(percent, lit_filled, lit_rest), block()) == BAR_WIDTH,
        bar_text(percent, false, false) == run(block(), BAR_WIDTH as nat),
{
    lemma_tens_bound(percent);
    let filled = run(block(), filled_cells(percent));
    let rest = run(block(), (BAR_WIDTH - filled_cells(percent)) as nat);
    assert forall|t: Tint| !(#[trigger] tint_code(t)).contains(block()) by {
        assert forall|i: int| 0 <= i < tint_code(t).len() implies tint_code(t)[i] != block() by {}
    }
    assert(!reset_code().contains(block()));
    lemma_tinted_count(filled, bar_tint(percent), lit_filled, block());
    lemma_tinted_count(rest, Tint::DimWhite, lit_rest, block());
    lemma_count_run(block(), filled_cells(percent), block());
    lemma_count_run(block(), (BAR_WIDTH - filled_cells(percent)) as nat, block());
    lemma_count_concat(
        tinted(filled, bar_tint(percent), lit_filled),
        tinted(rest, Tint::DimWhite, lit_rest),
        block(),
    );
    assert(filled + rest =~= run(block(), BAR_WIDTH as nat));
}

/// The colour of the filled part of the bar for `percent`.
pub fn bar_colour(percent: Percent) -> (tint: Tint)
    ensures
        tint == bar_tint(percent),
{
    if percent.above(90) {
        Tint::Red
    } else if percent.above(75) {
        Tint::Yellow
    } else {
        Tint::Green
    }
}

/// A usage bar of twenty block characters for `percent`, the filled part
/// first. Whether the parts carry colour codes is the terminal's matter.
pub fn bargraph(percent: Percent) -> (out: String)
    ensures
        exists|lit_filled: bool, lit_rest: bool|
            out@ == #[trigger] bar_text(percent, lit_filled, lit_rest),
        count_of(out@, block()) == BAR_WIDTH,
{
    proof {
        use_type_invariant(&percent);
    }
    let s1: usize = percent.rounded_tens() * 2;
    let s2: usize = BAR_WIDTH - s1;
    proof {
        reveal_strlit("■");
    }
    let bar1 = run_text("■", s1);
    let bar2 = run_text("■", s2);
    let mut out = paint(bar1.as_str(), bar_colour(percent));
    let rest = paint(bar2.as_str(), Tint::DimWhite);
    let ghost lit_filled = choose|lit: bool| out@ == tinted(bar1@, bar_tint(percent), lit);
    let ghost lit_rest = choose|lit: bool| rest@ == tinted(bar2@, Tint::DimWhite, lit);
    out.append(rest.as_str());
    assert(out@ == bar_text(percent, lit_filled, lit_rest));
    proof {
        lemma_bar_blocks(percent, lit_filled, lit_rest);
    }
    out
}

} // verus!
