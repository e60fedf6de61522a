//! Small helpers: decimal digit sums and a position-annotating walk
//! over a sequence, used to treat the first and last track specially.

use vstd::prelude::*;

verus! {

/// Sum of the decimal digits of a non-negative integer.
pub open spec fn spec_sum_digits(n: int) -> int
    decreases n,
{
    if n <= 0 {
        0
    } else {
        n % 10 + spec_sum_digits(n / 10)
    }
}

/// A digit sum never exceeds the number itself.
pub proof fn lemma_sum_digits_le(n: int)
    requires
        n >= 0,
    ensures
        0 <= spec_sum_digits(n) <= n,
    decreases n,
{
    if n > 0 {
        lemma_sum_digits_le(n / 10);
    }
}

pub open spec fn pow10(k: nat) -> int
    decreases k,
{
    if k == 0 {
        1
    } else {
        10 * pow10((k - 1) as nat)
    }
}

/// A number below `10^k` has at most `k` digits, so its digit sum is at
/// most `9 * k`.
pub proof fn lemma_sum_digits_bound(n: int, k: nat)
    requires
        0 <= n < pow10(k),
    ensures
        spec_sum_digits(n) <= 9 * k,
    decreases k,
{
    if k == 0 {
        assert(n == 0);
    } else if n > 0 {
        assert(n / 10 < pow10((k - 1) as nat));
        lemma_sum_digits_bound(n / 10, (k - 1) as nat);
    }
}

/// Every `u64` is below `10^20`, so its digit sum is at most `180`.
pub proof fn lemma_sum_digits_u64_bound(n: u64)
    ensures
        spec_sum_digits(n as int) <= 180,
{
    assert(pow10(20) == 0x56bc75e2d63100000) by {
        reveal_with_fuel(pow10, 21);
    }
    lemma_sum_digits_bound(n as int, 20);
}

/// Returns the sum of the decimal digits of `n`; `sum_digits(0) == 0`.
pub fn sum_digits(n: u64) -> (r: u64)
    ensures
        r == spec_sum_digits(n as int),
{
    let mut r: u64 = 0;
    let mut m: u64 = n;

    proof {
        lemma_sum_digits_le(n as int);
        lemma_sum_digits_le(m as int);
    }

    while m > 0
        invariant
            r + spec_sum_digits(m as int) == spec_sum_digits(n as int),
            spec_sum_digits(n as int) <= n,
        decreases m,
    {
        proof {
            lemma_sum_digits_le((m / 10) as int);
        }
        r = r + m % 10;
        m = m / 10;
    }

    r
}

/// Where an element stands within the sequence it was taken from.
#[derive(Clone, Copy, Debug, PartialEq, Eq, Structural)]
pub enum LookaheadPos {
    First,
    Last,
    Middle,
    Only,
}

/// The position mark for index `i` in a sequence of length `n`.
pub open spec fn spec_lookahead_pos(i: int, n: int) -> LookaheadPos {
    if n == 1 {
        LookaheadPos::Only
    } else if i == 0 {
        LookaheadPos::First
    } else if i == n - 1 {
        LookaheadPos::Last
    } else {
        LookaheadPos::Middle
    }
}

impl LookaheadPos {
    /// True for the first element of a sequence, including a singleton's.
    pub fn is_start(&self) -> (r: bool)
        ensures
            r == (*self == LookaheadPos::First || *self == LookaheadPos::Only),
    {
        matches!(*self, LookaheadPos::First | LookaheadPos::Only)
    }

    /// True for the last element of a sequence, including a singleton's.
    pub fn is_end(&self) -> (r: bool)
        ensures
            r == (*self == LookaheadPos::Last || *self == LookaheadPos::Only),
    {
        matches!(*self, LookaheadPos::Last | LookaheadPos::Only)
    }
}

/// Walks a sequence of items, handing each out together with its
/// [`LookaheadPos`], so a caller can tell the first and last apart
/// without looking ahead itself.
pub struct Lookahead<T> {
    items: Vec<T>,
    index: usize,
}

impl<T: Copy> Lookahead<T> {
    /// The items this walk was built over.
    pub closed spec fn items(&self) -> Seq<T> {
        self.items@
    }

    /// How many items have been handed out so far.
    pub closed spec fn index(&self) -> int {
        self.index as int
    }

    pub fn new(items: Vec<T>) -> (r: Self)
        ensures
            r.items() == items@,
            r.index() == 0,
    {
        Lookahead { items, index: 0 }
    }

    /// Hands out the next item with its position mark, or `None` once
    /// the items are exhausted.
    pub fn next(&mut self) -> (r: Option<(LookaheadPos, T)>)
        ensures
            final(self).items() == old(self).items(),
            if old(self).index() < old(self).items().len() {
                &&& r == Some(
                    (
                        spec_lookahead_pos(old(self).index(), old(self).items().len() as int),
                        old(self).items()[old(self).index()],
                    ),
                )
                &&& final(self).index() == old(self).index() + 1
            } else {
                &&& r is None
                &&& final(self).index() == old(self).index()
            },
    {
        if self.index < self.items.len() {
            let n = self.items.len();
            let pos = if n == 1 {
                LookaheadPos::Only
            } else if self.index == 0 {
                LookaheadPos::First
            } else if self.index == n - 1 {
                LookaheadPos::Last
            } else {
                LookaheadPos::Middle
            };
            let item = self.items[self.index];
            self.index = self.index + 1;
            Some((pos, item))
        } else {
            None
        }
    }
}

} // verus!
