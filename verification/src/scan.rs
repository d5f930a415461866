//! The scan of the mount table: which lines are taken, and which of the
//! filesystems found become records.

use crate::order::{arranges, sort_stats, stably_sorted};
use crate::stats::Stats;
use crate::text::{byte_len, chars_of};
use crate::util::{display_name, is_virtual, is_virtual_name, view_of};
use vstd::prelude::*;
use vstd::string::StrSliceExecFns;
use vstd::string::StringExecFns;

verus! {

/// Whether `c` is white space, as `char::is_whitespace` has it: the
/// characters with the Unicode property `White_Space`.
pub uninterp spec fn is_space(c: char) -> bool;

/// Calls `char::is_whitespace`. Trusted: the answer depends on the
/// character alone.
#[verifier::external_body]
fn is_whitespace(c: char) -> (space: bool)
    ensures
        space == is_space(c),
{
    c.is_whitespace()
}

/// The fields of a line: its longest runs of characters that are no white
/// space, from left to right.
pub open spec fn fields(line: Seq<char>) -> Seq<Seq<char>>
    decreases line.len(),
{
    if line.len() == 0 {
        Seq::empty()
    } else {
        let before = fields(line.drop_last());
        let c = line.last();
        if is_space(c) {
            before
        } else if line.len() >= 2 && !is_space(line[line.len() - 2]) {
            before.drop_last().push(before.last().push(c))
        } else {
            before.push(seq![c])
        }
    }
}

/// The fields of `line`, split at white space.
pub fn split_fields(line: &str) -> (out: Vec<String>)
    ensures
        out.len() == fields(line@).len(),
        forall|j: int| 0 <= j < out.len() ==> (#[trigger] out@[j])@ == fields(line@)[j],
{
    let cs = chars_of(line);
    let n = cs.len();
    let mut out: Vec<String> = Vec::new();
    let mut i: usize = 0;
    let mut start: usize = 0;
    let mut in_word = false;
    while i < n
        invariant
            i <= n,
            n == cs.len(),
            cs@ == line@,
            in_word == (i > 0 && !is_space(cs@[i - 1])),
            in_word ==> start < i && fields(cs@.take(i as int)).len() == out.len() + 1 && fields(
                cs@.take(i as int),
            ).last() == cs@.subrange(start as int, i as int),
            !in_word ==> fields(cs@.take(i as int)).len() == out.len(),
            forall|j: int|
                0 <= j < out.len() ==> (#[trigger] out@[j])@ == fields(cs@.take(i as int))[j],
        decreases n - i,
    {
        let c = cs[i];
        let ghost pre = cs@.take(i as int);
        let ghost next = cs@.take(i + 1);
        assert(next.drop_last() =~= pre);
        assert(next.last() == c);
        assert(i > 0 ==> next[next.len() - 2] == cs@[i - 1]);
        if is_whitespace(c) {
            if in_word {
                out.push(String::from_str(line.substring_char(start, i)));
                in_word = false;
            }
        } else {
            if !in_word {
                start = i;
                in_word = true;
                assert(cs@.subrange(start as int, i + 1) =~= seq![c]);
            } else {
                assert(cs@.subrange(start as int, i + 1) =~= cs@.subrange(
                    start as int,
                    i as int,
                ).push(c));
            }
        }
        i += 1;
    }
    assert(cs@.take(n as int) =~= line@);
    if in_word {
        out.push(String::from_str(line.substring_char(start, n)));
    }
    out
}

/// No field is empty, and none holds white space.
pub proof fn lemma_fields_are_words(line: Seq<char>, j: int)
    requires
        0 <= j < fields(line).len(),
    ensures
        fields(line)[j].len() > 0,
        forall|k: int| 0 <= k < fields(line)[j].len() ==> !is_space(#[trigger] fields(line)[j][k]),
        line.len() > 0 && !is_space(line.last()) && j == fields(line).len() - 1 ==> fields(
            line,
        )[j].last() == line.last(),
    decreases line.len(),
{
    if line.len() > 0 {
        let before = fields(line.drop_last());
        let c = line.last();
        if is_space(c) {
            lemma_fields_are_words(line.drop_last(), j);
        } else if line.len() >= 2 && !is_space(line[line.len() - 2]) {
            lemma_fields_grow(line.drop_last());
            if j < before.len() - 1 {
                lemma_fields_are_words(line.drop_last(), j);
            } else {
                lemma_fields_are_words(line.drop_last(), before.len() - 1);
            }
        } else {
            if j < before.len() {
                lemma_fields_are_words(line.drop_last(), j);
            }
        }
    }
}

/// A line that ends in a character that is no white space has a field.
pub proof fn lemma_fields_grow(line: Seq<char>)
    requires
        line.len() > 0,
        !is_space(line.last()),
    ensures
        fields(line).len() > 0,
    decreases line.len(),
{
    if line.len() >= 2 && !is_space(line[line.len() - 2]) {
        assert(line.drop_last().last() == line[line.len() - 2]);
        lemma_fields_grow(line.drop_last());
    }
}

/// A table in order holds at most one record of a filesystem instance.
pub proof fn lemma_one_record_per_instance(table: &MountTable, i: int, j: int)
    requires
        table.wf(),
        0 <= i < table.entries().len(),
        0 <= j < table.entries().len(),
        table.entries()[i].same_instance(&table.entries()[j]),
    ensures
        i == j,
{
    if i < j {
        assert(!table.entries()[i].same_instance(&table.entries()[j]));
    } else if j < i {
        assert(!table.entries()[j].same_instance(&table.entries()[i]));
    }
}

/// Once a sample is the table's last record, the table holds its
/// filesystem instance, so that a later sample of the same identifier and
/// size is a duplicate, whatever its mount point.
pub proof fn lemma_recorded_is_held(table: &MountTable, sample: &Sample, later: &Sample)
    requires
        table.entries().len() > 0,
        table.entries().last().describes(
            sample.source@,
            view_of(sample.resolved),
            sample.size() as u64,
            sample.avail() as u64,
            sample.target@,
            sample.fsid,
        ),
        later.fsid == sample.fsid,
        later.size() == sample.size(),
    ensures
        table.holds(later.fsid, later.size() as u64),
{
    let last = table.entries().len() - 1;
    assert(table.entries()[last].fsid == later.fsid);
}

/// What is to be done with a line of the mount table.
#[derive(Debug, PartialEq, Eq)]
pub enum Verdict {
    /// The line has fewer than two fields: it is reported and skipped.
    Malformed,
    /// The source is a virtual filesystem and not all are asked for.
    Hidden,
    /// The filesystem mounted from `source` on `target` is to be measured.
    Probe { source: String, target: String },
}

/// What the operating system says of one mounted filesystem, with the
/// fields of its line in the mount table.
#[derive(Debug)]
pub struct Sample {
    /// The mount source, the line's first field.
    pub source: String,
    /// The mount point, the line's second field.
    pub target: String,
    /// The canonical path of `source`, where it was resolved.
    pub resolved: Option<String>,
    /// The size of the filesystem, in blocks.
    pub blocks: u64,
    /// The size of a block, in bytes.
    pub block_size: u64,
    /// The blocks that are free to use.
    pub blocks_available: u64,
    /// The identifier of the filesystem instance.
    pub fsid: u64,
}

impl Sample {
    /// The size of the filesystem in bytes.
    pub open spec fn size(&self) -> nat {
        (self.blocks * self.block_size) as nat
    }

    /// The free space in bytes.
    pub open spec fn avail(&self) -> nat {
        (self.blocks_available * self.block_size) as nat
    }

    /// The name under which the filesystem is shown.
    pub open spec fn name(&self) -> Seq<char> {
        display_name(self.source@, view_of(self.resolved))
    }

    /// The byte counts fit the machine's words and no more is free than
    /// there is.
    pub open spec fn measurable(&self) -> bool {
        self.blocks * self.block_size <= u64::MAX && self.blocks_available <= self.blocks
    }
}

/// What became of a sample.
#[derive(Clone, Copy, Debug, PartialEq, Eq)]
pub enum Outcome {
    /// The filesystem has no size and not all are asked for.
    Empty,
    /// A record of the same filesystem instance is in the table already.
    Duplicate,
    /// The sample became the table's last record.
    Added,
}

/// The records of the filesystems found so far, in the order in which they
/// were found or, once sorted, in the order of the report.
#[derive(Debug)]
pub struct MountTable {
    stats: Vec<Stats>,
    max_width: usize,
    show_all: bool,
}

impl MountTable {
    /// The records.
    pub closed spec fn entries(&self) -> Seq<Stats> {
        self.stats@
    }

    /// The width of the name column.
    pub closed spec fn width(&self) -> nat {
        self.max_width as nat
    }

    /// Whether virtual and empty filesystems are kept.
    pub closed spec fn shows_all(&self) -> bool {
        self.show_all
    }

    /// Whether a record of the filesystem instance with this identifier and
    /// size is in the table.
    pub open spec fn holds(&self, fsid: u64, size: u64) -> bool {
        exists|i: int|
            0 <= i < self.entries().len() && (#[trigger] self.entries()[i]).fsid == fsid
                && self.entries()[i].size == size
    }

    /// The table is in order: no two records stand for the same filesystem
    /// instance, the name column is as wide as the longest name in bytes,
    /// and no record is empty unless all filesystems are asked for.
    pub open spec fn wf(&self) -> bool {
        &&& forall|i: int, j: int|
            #![trigger self.entries()[i], self.entries()[j]]
            0 <= i < j < self.entries().len() ==> !self.entries()[i].same_instance(
                &self.entries()[j],
            )
        &&& forall|i: int|
            0 <= i < self.entries().len() ==> byte_len((#[trigger] self.entries()[i]).filesystem@)
                <= self.width()
        &&& self.entries().len() == 0 ==> self.width() == 0
        &&& self.entries().len() > 0 ==> exists|i: int|
            0 <= i < self.entries().len() && byte_len((#[trigger] self.entries()[i]).filesystem@)
                == self.width()
        &&& !self.shows_all() ==> forall|i: int|
            0 <= i < self.entries().len() ==> (#[trigger] self.entries()[i]).size != 0
    }

    /// An empty table. With `show_all`, virtual and empty filesystems are
    /// kept too.
    pub fn new(show_all: bool) -> (table: MountTable)
        ensures
            table.wf(),
            table.entries().len() == 0,
            table.width() == 0,
            table.shows_all() == show_all,
    {
        MountTable { stats: Vec::new(), max_width: 0, show_all }
    }

    /// The records.
    pub fn stats(&self) -> (stats: &Vec<Stats>)
        ensures
            stats@ == self.entries(),
    {
        &self.stats
    }

    /// The width of the name column: the length in bytes of the longest
    /// display name.
    pub fn max_width(&self) -> (width: usize)
        ensures
            width == self.width(),
    {
        self.max_width
    }

    /// Whether virtual and empty filesystems are kept.
    pub fn show_all(&self) -> (all: bool)
        ensures
            all == self.shows_all(),
    {
        self.show_all
    }

    /// Decides what is to be done with `line` of the mount table: its first
    /// field is the mount source, its second the mount point.
    pub fn examine(&self, line: &str) -> (verdict: Verdict)
        ensures
            match verdict {
                Verdict::Malformed => fields(line@).len() < 2,
                Verdict::Hidden => fields(line@).len() >= 2 && !self.shows_all() && is_virtual_name(
                    fields(line@)[0],
                ),
                Verdict::Probe { source, target } => {
                    &&& fields(line@).len() >= 2
                    &&& self.shows_all() || !is_virtual_name(fields(line@)[0])
                    &&& source@ == fields(line@)[0]
                    &&& target@ == fields(line@)[1]
                },
            },
    {
        let parts = split_fields(line);
        if parts.len() < 2 {
            return Verdict::Malformed;
        }
        if !self.show_all && is_virtual(parts[0].as_str()) {
            return Verdict::Hidden;
        }
        Verdict::Probe { source: parts[0].clone(), target: parts[1].clone() }
    }

    /// Whether a record of the same filesystem instance as `stat` is in the
    /// table.
    pub fn contains(&self, stat: &Stats) -> (found: bool)
        ensures
            found == self.holds(stat.fsid, stat.size),
    {
        let mut i: usize = 0;
        while i < self.stats.len()
            invariant
                i <= self.stats.len(),
                forall|j: int| 0 <= j < i ==> !(#[trigger] self.stats@[j]).same_instance(stat),
            decreases self.stats.len() - i,
        {
            if self.stats[i].is_same(stat) {
                assert(self.entries()[i as int].same_instance(stat));
                return true;
            }
            i += 1;
        }
        false
    }

    /// Takes `sample` into the table, unless the filesystem is empty and
    /// not all are asked for, or a record of the same instance is there
    /// already: the first one found stays.
    pub fn record(&mut self, sample: &Sample) -> (outcome: Outcome)
        requires
            old(self).wf(),
            sample.measurable(),
        ensures
            final(self).wf(),
            final(self).shows_all() == old(self).shows_all(),
            outcome == Outcome::Empty <==> sample.size() == 0 && !old(self).shows_all(),
            outcome == Outcome::Duplicate <==> !(sample.size() == 0 && !old(self).shows_all())
                && old(self).holds(sample.fsid, sample.size() as u64),
            outcome != Outcome::Added ==> final(self).entries() == old(self).entries()
                && final(self).width() == old(self).width(),
            outcome == Outcome::Added ==> {
                &&& final(self).entries().len() == old(self).entries().len() + 1
                &&& final(self).entries().drop_last() == old(self).entries()
                &&& final(self).entries().last().describes(
                    sample.source@,
                    view_of(sample.resolved),
                    sample.size() as u64,
                    sample.avail() as u64,
                    sample.target@,
                    sample.fsid,
                )
                &&& final(self).width() == if byte_len(sample.name()) > old(self).width() {
                    byte_len(sample.name())
                } else {
                    old(self).width()
                }
            },
    {
        let size: u64 = sample.blocks * sample.block_size;
        if size == 0 && !self.show_all {
            return Outcome::Empty;
        }
        assert(sample.blocks_available * sample.block_size <= sample.blocks * sample.block_size)
            by (nonlinear_arith)
            requires
                sample.blocks_available <= sample.blocks,
        ;
        let avail: u64 = sample.blocks_available * sample.block_size;
        let s = Stats::new(
            sample.source.as_str(),
            sample.resolved.clone(),
            size,
            avail,
            sample.target.as_str(),
            sample.fsid,
        );
        if self.contains(&s) {
            return Outcome::Duplicate;
        }
        let len = s.name_len();
        if len > self.max_width {
            self.max_width = len;
        }
        let ghost before = self.stats@;
        self.stats.push(s);
        proof {
            let after = self.stats@;
            assert(after.drop_last() =~= before);
            assert forall|i: int, j: int|
                #![trigger after[i], after[j]]
                0 <= i < j < after.len() implies !after[i].same_instance(&after[j]) by {
                if j < before.len() {
                    assert(after[i] == before[i] && after[j] == before[j]);
                } else {
                    assert(after[i] == before[i]);
                }
            }
            assert forall|i: int| 0 <= i < after.len() implies byte_len(
                (#[trigger] after[i]).filesystem@,
            ) <= self.width() by {
                if i < before.len() {
                    assert(after[i] == before[i]);
                }
            }
            if len as nat == self.width() {
                assert(byte_len(after[after.len() - 1].filesystem@) == self.width());
            } else {
                let w = choose|i: int|
                    0 <= i < before.len() && byte_len((#[trigger] before[i]).filesystem@)
                        == self.width();
                assert(after[w] == before[w]);
            }
            assert(!self.shows_all() ==> forall|i: int|
                0 <= i < after.len() ==> (#[trigger] after[i]).size != 0) by {
                assert forall|i: int| 0 <= i < after.len() && !self.shows_all() implies (
                #[trigger] after[i]).size != 0 by {
                    if i < before.len() {
                        assert(after[i] == before[i]);
                    }
                }
            }
        }
        Outcome::Added
    }

    /// Sorts the records into the order of the report.
    pub fn sort(&mut self)
        requires
            old(self).wf(),
        ensures
            final(self).wf(),
            final(self).width() == old(self).width(),
            final(self).shows_all() == old(self).shows_all(),
            stably_sorted(old(self).entries(), final(self).entries()),
    {
        let ghost before = self.stats@;
        sort_stats(&mut self.stats);
        proof {
            let after = self.stats@;
            let (from, to) = choose|from: Seq<int>, to: Seq<int>| arranges(before, after, from, to);
            assert forall|i: int, j: int|
                #![trigger after[i], after[j]]
                0 <= i < j < after.len() implies !after[i].same_instance(&after[j]) by {
                let a = from[i];
                let b = from[j];
                assert(after[i] == before[a] && after[j] == before[b]);
                if a == b {
                    crate::stats::lemma_precedes_total(&after[i], &after[j]);
                } else if a < b {
                    assert(!before[a].same_instance(&before[b]));
                } else {
                    assert(!before[b].same_instance(&before[a]));
                }
            }
            assert forall|i: int| 0 <= i < after.len() implies byte_len(
                (#[trigger] after[i]).filesystem@,
            ) <= self.width() by {
                assert(after[i] == before[from[i]]);
            }
            if after.len() > 0 {
                let w = choose|i: int|
                    0 <= i < before.len() && byte_len((#[trigger] before[i]).filesystem@)
                        == self.width();
                assert(after[to[w]] == before[from[to[w]]]);
            }
            assert forall|i: int| 0 <= i < after.len() && !self.shows_all() implies (
            #[trigger] after[i]).size != 0 by {
                assert(after[i] == before[from[i]]);
            }
        }
    }
}

} // verus!
