//! The record of one mounted filesystem and its place in the report.

use crate::percent::Percent;
use crate::text::{
    byte_count, byte_len, comes_before, has_char, has_prefix, lemma_lex_irreflexive,
    lemma_lex_total, lemma_lex_transitive, lex_less,
};
use crate::util::{display_name, shorten_lv, view_of};
use vstd::prelude::*;
use vstd::string::StringExecFns;

verus! {

/// The score from which device paths count upwards by their length.
pub const FS_DEV: usize = 0;

/// The score of every source that is neither a device nor on the network.
pub const FS_DEFAULT: usize = 500;

/// The score of a network filesystem.
pub const FS_NET: usize = 1000;

/// The place of a mount source in the report: a source with a colon is a
/// network share and comes last, a device path counts by its length in
/// bytes, everything else lies between in one flat band.
pub open spec fn score_of(fs: Seq<char>) -> nat {
    if fs.contains(':') {
        FS_NET as nat
    } else if "/dev/"@.is_prefix_of(fs) {
        FS_DEV as nat + byte_len(fs)
    } else {
        FS_DEFAULT as nat
    }
}

/// The score of the mount source `fs`.
pub fn score(fs: &str) -> (points: usize)
    ensures
        points == score_of(fs@),
{
    if has_char(fs, ':') {
        FS_NET
    } else if has_prefix(fs, "/dev/") {
        FS_DEV + byte_count(fs)
    } else {
        FS_DEFAULT
    }
}

/// One mounted filesystem: its name, its byte counts and where it is
/// mounted.
#[derive(Debug)]
pub struct Stats {
    pub filesystem: String,
    pub size: u64,
    pub used: u64,
    pub avail: u64,
    pub percent: Percent,
    pub mount: String,
    pub fsid: u64,
    /// The place in the report, from the mount source's name.
    pub score: usize,
    /// Whether the mount source names a network share.
    pub network: bool,
}

impl Stats {
    /// The record's score, by which it is ordered.
    pub open spec fn rank(&self) -> nat {
        self.score as nat
    }

    /// The record holds what `new` makes of these arguments.
    pub open spec fn describes(
        &self,
        fs: Seq<char>,
        resolved: Option<Seq<char>>,
        size: u64,
        avail: u64,
        mount: Seq<char>,
        fsid: u64,
    ) -> bool {
        &&& self.filesystem@ == display_name(fs, resolved)
        &&& self.size == size
        &&& self.avail == avail
        &&& self.used == size - avail
        &&& self.percent.used() == size - avail
        &&& self.percent.size() == size
        &&& self.mount@ == mount
        &&& self.fsid == fsid
        &&& self.rank() == score_of(fs)
        &&& self.network == fs.contains(':')
    }

    /// Two records stand for one filesystem instance: the same identifier
    /// and the same size, as with bind mounts.
    pub open spec fn same_instance(&self, other: &Stats) -> bool {
        self.fsid == other.fsid && self.size == other.size
    }

    /// `self` comes strictly before `other` in the report: by score, and
    /// among equal scores by name.
    pub open spec fn precedes(&self, other: &Stats) -> bool {
        self.rank() < other.rank() || (self.rank() == other.rank() && lex_less(
            self.filesystem@,
            other.filesystem@,
        ))
    }

    /// Neither of the two comes before the other: the same score and the
    /// same name.
    pub open spec fn ties_with(&self, other: &Stats) -> bool {
        self.rank() == other.rank() && self.filesystem@ == other.filesystem@
    }

    /// The record of the filesystem mounted from `fs` on `mount`, with
    /// `size` bytes of which `avail` are free. `resolved` is the canonical
    /// path of `fs`, where the caller resolved it.
    pub fn new(
        fs: &str,
        resolved: Option<String>,
        size: u64,
        avail: u64,
        mount: &str,
        fsid: u64,
    ) -> (stats: Stats)
        requires
            avail <= size,
        ensures
            stats.describes(fs@, view_of(resolved), size, avail, mount@, fsid),
    {
        let used = size - avail;
        let percent = Percent::new(used, size).unwrap();
        let score = score(fs);
        let network = has_char(fs, ':');
        Stats {
            filesystem: shorten_lv(fs, resolved),
            size,
            avail,
            used,
            percent,
            mount: String::from_str(mount),
            fsid,
            score,
            network,
        }
    }

    /// Whether the record is shown as a network filesystem.
    pub fn is_network(&self) -> (net: bool)
        ensures
            net == self.network,
    {
        self.network
    }

    /// Whether `other` stands for the same filesystem instance.
    pub fn is_same(&self, other: &Stats) -> (same: bool)
        ensures
            same == self.same_instance(other),
    {
        self.fsid == other.fsid && self.size == other.size
    }

    /// Whether `self` comes strictly before `other` in the report.
    pub fn sorts_before(&self, other: &Stats) -> (before: bool)
        ensures
            before == self.precedes(other),
    {
        self.score < other.score || (self.score == other.score && comes_before(
            self.filesystem.as_str(),
            other.filesystem.as_str(),
        ))
    }

    /// The length of the display name in bytes.
    pub fn name_len(&self) -> (len: usize)
        ensures
            len == byte_len(self.filesystem@),
    {
        byte_count(self.filesystem.as_str())
    }
}

/// A source with a colon scores as a network share whatever else it holds;
/// without one, only a device path of exactly that many bytes does.
pub proof fn lemma_network_score(fs: Seq<char>)
    ensures
        fs.contains(':') ==> score_of(fs) == FS_NET,
        score_of(fs) == FS_NET ==> fs.contains(':') || ("/dev/"@.is_prefix_of(fs) && byte_len(fs)
            == FS_NET),
{
}

/// Devices come before the default band, and that before the network: a
/// device path of fewer than 500 bytes scores below every source that is no
/// device, and a source without a colon that is no device scores below
/// every network share.
pub proof fn lemma_score_bands(device: Seq<char>, other: Seq<char>, share: Seq<char>)
    requires
        !device.contains(':'),
        "/dev/"@.is_prefix_of(device),
        byte_len(device) < FS_DEFAULT,
        !other.contains(':'),
        !"/dev/"@.is_prefix_of(other),
        share.contains(':'),
    ensures
        score_of(device) < score_of(other) < score_of(share),
{
}

/// The order of the report is a strict total order on score and name: no
/// record precedes itself or one that ties with it, of two that do not tie
/// one precedes the other, never both ways.
pub proof fn lemma_precedes_total(a: &Stats, b: &Stats)
    ensures
        !a.precedes(a),
        a.ties_with(b) ==> !a.precedes(b) && !b.precedes(a),
        a.precedes(b) || b.precedes(a) || a.ties_with(b),
        !(a.precedes(b) && b.precedes(a)),
{
    lemma_lex_irreflexive(a.filesystem@);
    lemma_lex_total(a.filesystem@, b.filesystem@);
}

/// The order of the report is transitive.
pub proof fn lemma_precedes_transitive(a: &Stats, b: &Stats, c: &Stats)
    requires
        a.precedes(b),
        b.precedes(c),
    ensures
        a.precedes(c),
{
    if a.rank() == b.rank() && b.rank() == c.rank() {
        lemma_lex_transitive(a.filesystem@, b.filesystem@, c.filesystem@);
    }
}

/// What precedes a record precedes everything that the record does not
/// come after.
pub proof fn lemma_precedes_chain(a: &Stats, b: &Stats, c: &Stats)
    requires
        a.precedes(b),
        !c.precedes(b),
    ensures
        a.precedes(c),
{
    lemma_precedes_total(b, c);
    if b.precedes(c) {
        lemma_precedes_transitive(a, b, c);
    }
}

} // verus!
