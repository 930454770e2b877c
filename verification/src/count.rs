//! Line tallies: the counts of code, comment and blank lines of one file or
//! of a whole scan.

use vstd::arithmetic::div_mod::{lemma_add_mod_noop, lemma_mod_twice, lemma_small_mod};
use vstd::prelude::*;

verus! {

/// Counts of code, comment and blank lines, for one file or for the aggregate
/// over all scanned files. The counters are fixed-width and wrap on overflow.
#[derive(Debug, Clone, Copy)]
pub struct Count {
    pub code: u32,
    pub comment: u32,
    pub blank: u32,
}

/// Mathematical view of a `Count`: the three tallies as unbounded integers.
pub ghost struct Tally {
    pub code: int,
    pub comment: int,
    pub blank: int,
}

impl View for Count {
    type V = Tally;

    open spec fn view(&self) -> Tally {
        Tally { code: self.code as int, comment: self.comment as int, blank: self.blank as int }
    }
}

pub open spec fn tally_zero() -> Tally {
    Tally { code: 0, comment: 0, blank: 0 }
}

pub open spec fn tally_add(a: Tally, b: Tally) -> Tally {
    Tally { code: a.code + b.code, comment: a.comment + b.comment, blank: a.blank + b.blank }
}

/// Reduction of a tally component to the range of a `u32` counter.
pub open spec fn wrap32(x: int) -> int {
    x % 0x1_0000_0000
}

/// Componentwise sum reduced to the counters' range: what accumulating `b`
/// into a counter holding `a` leaves behind.
pub open spec fn tally_wrap_add(a: Tally, b: Tally) -> Tally {
    Tally {
        code: wrap32(a.code + b.code),
        comment: wrap32(a.comment + b.comment),
        blank: wrap32(a.blank + b.blank),
    }
}

/// Every component of the tally is non-negative.
pub open spec fn tally_nonneg(t: Tally) -> bool {
    t.code >= 0 && t.comment >= 0 && t.blank >= 0
}

/// One wrapped component: adding on top of an already wrapped value is the
/// same as wrapping the whole sum once.
proof fn lemma_wrap32_chain(x: int, c: int)
    ensures
        wrap32(wrap32(x) + c) == wrap32(x + c),
{
    let m = 0x1_0000_0000int;
    lemma_mod_twice(x, m);
    lemma_add_mod_noop(x % m, c, m);
    lemma_add_mod_noop(x, c, m);
}

/// Accumulating two tallies one after the other into a counter is the same as
/// accumulating their componentwise sum at once.
pub proof fn lemma_wrap_add_chain(a: Tally, b: Tally, c: Tally)
    ensures
        tally_wrap_add(tally_wrap_add(a, b), c) == tally_wrap_add(a, tally_add(b, c)),
{
    lemma_wrap32_chain(a.code + b.code, c.code);
    lemma_wrap32_chain(a.comment + b.comment, c.comment);
    lemma_wrap32_chain(a.blank + b.blank, c.blank);
}

/// While the componentwise sum still fits the counters, accumulation does not
/// wrap: it is the exact sum.
pub proof fn lemma_wrap_add_exact(a: Tally, b: Tally)
    requires
        0 <= a.code + b.code <= u32::MAX,
        0 <= a.comment + b.comment <= u32::MAX,
        0 <= a.blank + b.blank <= u32::MAX,
    ensures
        tally_wrap_add(a, b) == tally_add(a, b),
{
    let m = 0x1_0000_0000nat;
    lemma_small_mod((a.code + b.code) as nat, m);
    lemma_small_mod((a.comment + b.comment) as nat, m);
    lemma_small_mod((a.blank + b.blank) as nat, m);
}

impl Count {
    /// An empty tally: all three counters are zero.
    pub fn new() -> (c: Count)
        ensures
            c@ == tally_zero(),
    {
        Count { code: 0, comment: 0, blank: 0 }
    }

    /// Accumulates another tally into this one, componentwise, wrapping on
    /// overflow.
    pub fn add(&mut self, other: &Count)
        ensures
            final(self)@ == tally_wrap_add(old(self)@, other@),
    {
        self.code = self.code.wrapping_add(other.code);
        self.comment = self.comment.wrapping_add(other.comment);
        self.blank = self.blank.wrapping_add(other.blank);
    }
}

} // verus!
