//! Usage percentages, held exactly as a ratio of two byte counts.

use crate::text::{
    decimal, decimal_text, digit_char, digit_text, lemma_decimal_len, pad_left, padded_left,
};
use vstd::prelude::*;
use vstd::string::StringExecFns;

verus! {

/// The share of `size` that `used` takes, in percent. It is held as the two
/// counts, so nothing is lost to rounding; with a `size` of zero the
/// percentage is undefined.
#[derive(Clone, Copy, Debug)]
pub struct Percent {
    used: u64,
    size: u64,
}

/// `num / den` rounded to the nearest whole number, a tie going to the even
/// neighbour.
pub open spec fn round_half_even(num: nat, den: nat) -> nat
    recommends
        den > 0,
{
    let q = num / den;
    let r = num % den;
    if 2 * r < den {
        q
    } else if 2 * r > den {
        q + 1
    } else if q % 2 == 0 {
        q
    } else {
        q + 1
    }
}

impl Percent {
    /// What holds of every percentage: no more is used than there is.
    #[verifier::type_invariant]
    pub open spec fn in_range(self) -> bool {
        self.used() <= self.size()
    }

    /// The numerator: the bytes in use.
    pub closed spec fn used(self) -> nat {
        self.used as nat
    }

    /// The denominator: the bytes in all.
    pub closed spec fn size(self) -> nat {
        self.size as nat
    }

    /// Whether the percentage is undefined.
    pub open spec fn undefined(self) -> bool {
        self.size() == 0
    }

    /// The percentage of `used` in `size`. There is none where `used`
    /// exceeds `size`.
    pub fn new(used: u64, size: u64) -> (out: Option<Percent>)
        ensures
            out is Some <==> used <= size,
            out matches Some(p) ==> p.used() == used && p.size() == size,
    {
        if used <= size {
            Some(Percent { used, size })
        } else {
            None
        }
    }

    /// The percentage divided by ten and rounded to the nearest whole number,
    /// a half going up; zero where the percentage is undefined.
    pub open spec fn tens(self) -> nat {
        if self.undefined() {
            0
        } else {
            (20 * self.used() + self.size()) / (2 * self.size())
        }
    }

    /// Whether the percentage is defined and greater than `limit`.
    pub open spec fn exceeds(self, limit: nat) -> bool {
        !self.undefined() && 100 * self.used() > limit * self.size()
    }

    /// The percentage in tenths of a percent, rounded to the nearest tenth,
    /// a tie going to the even neighbour.
    pub open spec fn tenths(self) -> nat
        recommends
            !self.undefined(),
    {
        round_half_even(1000 * self.used(), self.size())
    }

    /// The percentage as the report shows it: a dash where it is undefined,
    /// else the number with one decimal place, right-aligned in five
    /// characters.
    pub open spec fn shown(self) -> Seq<char> {
        if self.undefined() {
            padded_left(seq!['-'], 5)
        } else {
            padded_left(
                decimal(self.tenths() / 10) + seq!['.'] + seq![digit_char(self.tenths() % 10)],
                5,
            )
        }
    }

    /// The percentage divided by ten, rounded; at most ten.
    pub fn rounded_tens(&self) -> (n: usize)
        ensures
            n == self.tens(),
            n <= 10,
    {
        proof {
            use_type_invariant(self);
        }
        if self.size == 0 {
            return 0;
        }
        let used: u128 = self.used as u128;
        let size: u128 = self.size as u128;
        let n: u128 = (20 * used + size) / (2 * size);
        assert(n <= 10) by (nonlinear_arith)
            requires
                n == (20 * used + size) / (2 * size),
                0 <= used <= size,
                size > 0,
        ;
        n as usize
    }

    /// Whether the percentage is greater than `limit`; never so where it is
    /// undefined.
    pub fn above(&self, limit: u64) -> (over: bool)
        ensures
            over == self.exceeds(limit as nat),
    {
        if self.size == 0 {
            return false;
        }
        assert(limit as u128 * self.size as u128 <= u64::MAX as u128 * u64::MAX as u128)
            by (nonlinear_arith);
        100 * (self.used as u128) > (limit as u128) * (self.size as u128)
    }

    /// The percentage as the report shows it.
    pub fn to_text(&self) -> (out: String)
        ensures
            out@ == self.shown(),
    {
        proof {
            use_type_invariant(self);
        }
        if self.size == 0 {
            proof {
                reveal_strlit("-");
            }
            assert("-"@ =~= seq!['-']);
            return pad_left("-", 5);
        }
        let num: u128 = 1000 * (self.used as u128);
        let den: u128 = self.size as u128;
        let q: u128 = num / den;
        let r: u128 = num % den;
        assert(q <= 1000) by (nonlinear_arith)
            requires
                q == num / den,
                0 <= num <= 1000 * den,
                den > 0,
        ;
        let t: u128 = if 2 * r < den {
            q
        } else if 2 * r > den {
            q + 1
        } else if q % 2 == 0 {
            q
        } else {
            q + 1
        };
        assert(t == self.tenths());
        let mut out = decimal_text((t / 10) as u64);
        proof {
            reveal_strlit(".");
        }
        out.append(".");
        out.append(digit_text((t % 10) as u64));
        assert(out@ =~= decimal(self.tenths() / 10) + seq!['.'] + seq![
            digit_char(self.tenths() % 10),
        ]);
        pad_left(out.as_str(), 5)
    }

    /// Whether the percentage is undefined, as that of an empty filesystem
    /// is.
    pub fn is_nan(&self) -> (nan: bool)
        ensures
            nan == self.undefined(),
    {
        self.size == 0
    }
}

/// A percentage divided by ten and rounded is at most ten.
pub proof fn lemma_tens_bound(p: Percent)
    requires
        p.in_range(),
    ensures
        p.tens() <= 10,
{
    if !p.undefined() {
        let used = p.used();
        let size = p.size();
        assert((20 * used + size) / (2 * size) <= 10) by (nonlinear_arith)
            requires
                0 <= used <= size,
                size > 0,
        ;
    }
}

/// An undefined percentage is shown as a dash at the right of its column.
pub proof fn lemma_undefined_shown(p: Percent)
    requires
        p.undefined(),
    ensures
        p.shown() == seq![' ', ' ', ' ', ' ', '-'],
{
    assert(p.shown() =~= seq![' ', ' ', ' ', ' ', '-']);
}

/// A percentage always fills its column of five characters exactly, and a
/// defined one is at most a thousand tenths.
pub proof fn lemma_shown_width(p: Percent)
    requires
        p.in_range(),
    ensures
        p.shown().len() == 5,
        !p.undefined() ==> p.tenths() <= 1000,
{
    if !p.undefined() {
        let num = 1000 * p.used();
        let den = p.size();
        assert(num / den <= 1000 && (num / den == 1000 ==> num % den == 0)) by (nonlinear_arith)
            requires
                0 <= num <= 1000 * den,
                den > 0,
        ;
        lemma_decimal_len(p.tenths() / 10);
    }
}

} // verus!
