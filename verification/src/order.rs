//! The order of the report: comparison of records, and the stable sort.

use crate::stats::{lemma_precedes_chain, lemma_precedes_total, Stats};
use std::cmp::Ordering;
use vstd::prelude::*;

verus! {

impl Stats {
    /// How `self` stands to `other` in the report.
    pub open spec fn order(&self, other: &Stats) -> Ordering {
        if self.precedes(other) {
            Ordering::Less
        } else if other.precedes(self) {
            Ordering::Greater
        } else {
            Ordering::Equal
        }
    }

    /// Compares by score, and among equal scores by name.
    pub fn cmp(&self, other: &Stats) -> (o: Ordering)
        ensures
            o == self.order(other),
    {
        if self.sorts_before(other) {
            Ordering::Less
        } else if other.sorts_before(self) {
            Ordering::Greater
        } else {
            Ordering::Equal
        }
    }
}

/// Two records are equal when their display names are; the sizes and the
/// identifiers do not count here.
impl PartialEq for Stats {
    fn eq(&self, other: &Stats) -> (same: bool) {
        self.filesystem == other.filesystem
    }
}

impl vstd::std_specs::cmp::PartialEqSpecImpl for Stats {
    open spec fn obeys_eq_spec() -> bool {
        true
    }

    open spec fn eq_spec(&self, other: &Stats) -> bool {
        self.filesystem@ == other.filesystem@
    }
}

impl Eq for Stats {

}

impl PartialOrd for Stats {
    fn partial_cmp(&self, other: &Stats) -> (o: Option<Ordering>) {
        Some(self.cmp(other))
    }
}

impl vstd::std_specs::cmp::PartialOrdSpecImpl for Stats {
    open spec fn obeys_partial_cmp_spec() -> bool {
        true
    }

    open spec fn partial_cmp_spec(&self, other: &Stats) -> Option<Ordering> {
        Some(self.order(other))
    }
}

/// Two records compare as equal exactly when they have the same score and
/// the same name, and comparing the other way round mirrors the result.
pub proof fn lemma_order_laws(a: &Stats, b: &Stats)
    ensures
        a.order(b) == Ordering::Equal <==> a.ties_with(b),
        a.order(b) == Ordering::Less <==> b.order(a) == Ordering::Greater,
        a.order(a) == Ordering::Equal,
{
    lemma_precedes_total(a, b);
    lemma_precedes_total(a, a);
}

/// `out` holds the records of `input` in the order of the report: `from`
/// gives for each place in `out` the place in `input` that its record came
/// from, `to` the way back; no record comes after one that it precedes, and
/// records that tie keep the order that they had in `input`.
pub open spec fn arranges(input: Seq<Stats>, out: Seq<Stats>, from: Seq<int>, to: Seq<int>) -> bool {
    &&& out.len() == input.len()
    &&& from.len() == input.len()
    &&& to.len() == input.len()
    &&& forall|j: int|
        0 <= j < out.len() ==> 0 <= #[trigger] from[j] < input.len() && out[j] == input[from[j]]
    &&& forall|i: int|
        0 <= i < input.len() ==> 0 <= #[trigger] to[i] < out.len() && from[to[i]] == i
    &&& forall|a: int, b: int|
        #![trigger out[a], out[b]]
        0 <= a < b < out.len() ==> !out[b].precedes(&out[a]) && (out[a].ties_with(&out[b])
            ==> from[a] < from[b])
}

/// `out` is `input` sorted stably in the order of the report.
pub open spec fn stably_sorted(input: Seq<Stats>, out: Seq<Stats>) -> bool {
    exists|from: Seq<int>, to: Seq<int>| arranges(input, out, from, to)
}

/// Two arrangements of the same records take every place from the same
/// place of the input.
pub proof fn lemma_arrangement_unique(
    input: Seq<Stats>,
    out1: Seq<Stats>,
    from1: Seq<int>,
    to1: Seq<int>,
    out2: Seq<Stats>,
    from2: Seq<int>,
    to2: Seq<int>,
    j: int,
)
    requires
        arranges(input, out1, from1, to1),
        arranges(input, out2, from2, to2),
        0 <= j < input.len(),
    ensures
        from1[j] == from2[j],
        out1[j] == out2[j],
    decreases j,
{
    let a = from1[j];
    let b = from2[j];
    if a != b {
        let j1 = to1[b];
        let j2 = to2[a];
        assert(from1[j1] == b && from2[j2] == a);
        assert(out1[j] == input[a] && out1[j1] == input[b]);
        assert(out2[j] == input[b] && out2[j2] == input[a]);
        if j2 < j {
            lemma_arrangement_unique(input, out1, from1, to1, out2, from2, to2, j2);
            assert(out1[j2] == input[from1[j2]]);
            assert(out1[j2].ties_with(&out1[j]));
            assert(false);
        }
        if j1 < j {
            lemma_arrangement_unique(input, out1, from1, to1, out2, from2, to2, j1);
            assert(out2[j1] == input[from2[j1]]);
            assert(out2[j1].ties_with(&out2[j]));
            assert(false);
        }
        assert(!out1[j1].precedes(&out1[j]));
        assert(!out2[j2].precedes(&out2[j]));
        lemma_precedes_total(&input[a], &input[b]);
        assert(out1[j].ties_with(&out1[j1]));
        assert(out2[j].ties_with(&out2[j2]));
        assert(false);
    }
    assert(out1[j] == input[a]);
    assert(out2[j] == input[b]);
}

/// There is only one stable sort of given records.
pub proof fn lemma_sort_unique(input: Seq<Stats>, out1: Seq<Stats>, out2: Seq<Stats>)
    requires
        stably_sorted(input, out1),
        stably_sorted(input, out2),
    ensures
        out1 == out2,
{
    let (from1, to1) = choose|from: Seq<int>, to: Seq<int>| arranges(input, out1, from, to);
    let (from2, to2) = choose|from: Seq<int>, to: Seq<int>| arranges(input, out2, from, to);
    assert forall|j: int| 0 <= j < out1.len() implies out1[j] == out2[j] by {
        lemma_arrangement_unique(input, out1, from1, to1, out2, from2, to2, j);
    }
    assert(out1 =~= out2);
}

/// Sorts the records into the order of the report. Records with the same
/// score and name stay in the order in which they were.
pub fn sort_stats(v: &mut Vec<Stats>)
    ensures
        stably_sorted(old(v)@, final(v)@),
{
    let ghost input = v@;
    let ghost n = v.len() as int;
    let mut out: Vec<Stats> = Vec::new();
    let ghost mut from: Seq<int> = Seq::empty();
    let ghost mut to: Seq<int> = Seq::new(n as nat, |i: int| 0);
    while v.len() > 0
        invariant
            n == input.len(),
            v@ =~= input.take(v.len() as int),
            v.len() + out.len() == n,
            from.len() == out.len(),
            to.len() == n,
            forall|j: int|
                0 <= j < out.len() ==> v.len() <= #[trigger] from[j] < n && out@[j] == input[from[j]],
            forall|i: int|
                v.len() <= i < n ==> 0 <= #[trigger] to[i] < out.len() && from[to[i]] == i,
            forall|a: int, b: int|
                #![trigger out@[a], out@[b]]
                0 <= a < b < out.len() ==> !out@[b].precedes(&out@[a]) && (out@[a].ties_with(
                    &out@[b],
                ) ==> from[a] < from[b]),
        decreases v.len(),
    {
        let x = v.pop().unwrap();
        let ghost k = v.len() as int;
        let mut p: usize = 0;
        while p < out.len() && out[p].sorts_before(&x)
            invariant
                p <= out.len(),
                forall|j: int| 0 <= j < p ==> (#[trigger] out@[j]).precedes(&x),
            decreases out.len() - p,
        {
            p += 1;
        }
        let ghost before = out@;
        let ghost old_from = from;
        let ghost old_to = to;
        proof {
            assert forall|j: int| p <= j < before.len() implies !(#[trigger] before[j]).precedes(
                &x,
            ) by {
                if j > p && before[j].precedes(&x) {
                    lemma_precedes_chain(&before[j], &x, &before[p as int]);
                }
            }
            assert forall|j: int| 0 <= j < p implies !x.precedes(&#[trigger] before[j])
                && !before[j].ties_with(&x) by {
                lemma_precedes_total(&before[j], &x);
            }
            from = old_from.insert(p as int, k);
            to = Seq::new(
                n as nat,
                |i: int|
                    if i == k {
                        p as int
                    } else if old_to[i] >= p {
                        old_to[i] + 1
                    } else {
                        old_to[i]
                    },
            );
        }
        out.insert(p, x);
        proof {
            assert(out@ == before.insert(p as int, x));
            assert forall|j: int| 0 <= j < out.len() implies v.len() <= #[trigger] from[j] < n
                && out@[j] == input[from[j]] by {
                if j < p {
                    assert(out@[j] == before[j] && from[j] == old_from[j]);
                } else if j > p {
                    assert(out@[j] == before[j - 1] && from[j] == old_from[j - 1]);
                }
            }
            assert forall|i: int| v.len() <= i < n implies 0 <= #[trigger] to[i] < out.len()
                && from[to[i]] == i by {
                if i != k {
                    let t = old_to[i];
                    assert(old_from[t] == i);
                    if t >= p {
                        assert(from[t + 1] == old_from[t]);
                    } else {
                        assert(from[t] == old_from[t]);
                    }
                }
            }
            assert forall|a: int, b: int|
                #![trigger out@[a], out@[b]]
                0 <= a < b < out.len() implies !out@[b].precedes(&out@[a]) && (out@[a].ties_with(
                &out@[b],
            ) ==> from[a] < from[b]) by {
                let ia = if a < p { a } else { a - 1 };
                let ib = if b < p { b } else { b - 1 };
                if a != p && b != p {
                    assert(out@[a] == before[ia] && out@[b] == before[ib]);
                    assert(from[a] == old_from[ia] && from[b] == old_from[ib]);
                    assert(!before[ib].precedes(&before[ia]));
                } else if a == p {
                    assert(out@[b] == before[ib] && from[b] == old_from[ib]);
                    assert(!before[ib].precedes(&x));
                } else {
                    assert(out@[a] == before[ia] && from[a] == old_from[ia]);
                    assert(before[ia].precedes(&x));
                }
            }
        }
    }
    proof {
        assert(arranges(input, out@, from, to));
    }
    *v = out;
}

} // verus!
