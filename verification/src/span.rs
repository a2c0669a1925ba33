//! Sums of numbers of seconds.

use crate::seconds::Seconds;
use vstd::prelude::*;

verus! {

// ── What a sum comes to ──────────────────────────────────────────────

/// What numbers of seconds come to together, in thousandths.
pub enum Total {
    Finite(int),
    Infinite { negative: bool },
    NoNumber,
}

/// A number of thousandths in one direction or the other.
pub open spec fn signed(negative: bool, n: nat) -> int {
    if negative {
        -n
    } else {
        n as int
    }
}

pub open spec fn amount(seconds: Seconds) -> Total {
    match seconds {
        Seconds::Finite { negative, thousandths } => Total::Finite(
            signed(negative, thousandths as nat),
        ),
        Seconds::Infinite { negative } => Total::Infinite { negative },
        Seconds::NoNumber => Total::NoNumber,
    }
}

/// Two of them together. What is without end in both directions is no number.
pub open spec fn plus(a: Total, b: Total) -> Total {
    match (a, b) {
        (Total::Finite(x), Total::Finite(y)) => Total::Finite(x + y),
        (Total::Finite(_), Total::Infinite { negative }) => Total::Infinite { negative },
        (Total::Infinite { negative }, Total::Finite(_)) => Total::Infinite { negative },
        (Total::Infinite { negative: x }, Total::Infinite { negative: y }) => if x == y {
            a
        } else {
            Total::NoNumber
        },
        _ => Total::NoNumber,
    }
}

pub open spec fn opposite(a: Total) -> Total {
    match a {
        Total::Finite(x) => Total::Finite(-x),
        Total::Infinite { negative } => Total::Infinite { negative: !negative },
        Total::NoNumber => Total::NoNumber,
    }
}

/// Whether a moment lies before what they come to. None lies before what is no
/// number.
pub open spec fn is_before(at: int, total: Total) -> bool {
    match total {
        Total::Finite(x) => at < x,
        Total::Infinite { negative } => !negative,
        Total::NoNumber => false,
    }
}

/// What they come to, or nothing where that is more, or where it is no number.
pub open spec fn at_least_nothing(a: Total) -> Total {
    match a {
        Total::Finite(x) => if x < 0 {
            Total::Finite(0)
        } else {
            a
        },
        Total::Infinite { negative: false } => a,
        _ => Total::Finite(0),
    }
}

/// Whether something takes no time back.
pub open spec fn is_forward(seconds: Seconds) -> bool {
    match seconds {
        Seconds::Finite { negative, thousandths } => !negative || thousandths == 0,
        Seconds::Infinite { negative } => !negative,
        Seconds::NoNumber => false,
    }
}

// ── Adding up ────────────────────────────────────────────────────────

/// A number of thousandths in one direction or the other.
#[derive(Debug, Clone, Copy, PartialEq, Eq)]
pub struct Span {
    pub negative: bool,
    pub thousandths: u128,
}

impl Span {
    pub open spec fn value(self) -> int {
        signed(self.negative, self.thousandths as nat)
    }

    pub fn zero() -> (r: Span)
        ensures
            r.value() == 0,
    {
        Span { negative: false, thousandths: 0 }
    }

    /// How far one count is ahead of another.
    fn between(ahead: u128, back: u128) -> (r: Span)
        ensures
            r.value() == ahead - back,
    {
        if ahead >= back {
            Span { negative: false, thousandths: ahead - back }
        } else {
            Span { negative: true, thousandths: back - ahead }
        }
    }

    /// Whether a moment lies before this.
    pub fn follows(&self, at: i64) -> (r: bool)
        ensures
            r == (at < self.value()),
    {
        if self.negative {
            at < 0 && -(at as i128) as u128 > self.thousandths
        } else {
            at < 0 || (at as u128) < self.thousandths
        }
    }

    /// This, so much further on.
    pub fn further(&self, by: i64) -> (r: Span)
        requires
            -u128::MAX <= self.value() + by <= u128::MAX,
        ensures
            r.value() == self.value() + by,
    {
        if by >= 0 {
            if self.negative {
                Span::between(by as u128, self.thousandths)
            } else {
                Span { negative: false, thousandths: self.thousandths + by as u128 }
            }
        } else {
            let back: u128 = (-(by as i128)) as u128;
            if self.negative {
                Span { negative: true, thousandths: self.thousandths + back }
            } else {
                Span::between(self.thousandths, back)
            }
        }
    }

    /// How far a moment lies behind this, as far as that can be counted, or
    /// nothing where it does not.
    pub fn behind(&self, at: i64) -> (r: u64)
        ensures
            r == counted(Total::Finite(at - self.value())),
    {
        let far: Span = if at >= 0 {
            let at: u128 = at as u128;
            if self.negative {
                if self.thousandths > 0xFFFF_FFFF_FFFF_FFFF {
                    return 0xFFFF_FFFF_FFFF_FFFF;
                }
                Span { negative: false, thousandths: at + self.thousandths }
            } else {
                Span::between(at, self.thousandths)
            }
        } else {
            let back: u128 = (-(at as i128)) as u128;
            if self.negative {
                Span::between(self.thousandths, back)
            } else {
                return 0;
            }
        };
        far.count()
    }

    /// This, in as many thousandths as can be counted, and nothing where it
    /// goes back.
    pub fn count(&self) -> (r: u64)
        ensures
            r == counted(Total::Finite(self.value())),
    {
        if self.negative {
            0
        } else if self.thousandths <= 0xFFFF_FFFF_FFFF_FFFF {
            self.thousandths as u64
        } else {
            0xFFFF_FFFF_FFFF_FFFF
        }
    }
}

/// A total as a count of thousandths: nothing where it goes back or is no
/// number, and as far as can be counted where it goes on further.
pub open spec fn counted(total: Total) -> u64 {
    match total {
        Total::Finite(x) => if x < 0 {
            0
        } else if x <= u64::MAX {
            x as u64
        } else {
            u64::MAX
        },
        Total::Infinite { negative } => if negative {
            0
        } else {
            u64::MAX
        },
        Total::NoNumber => 0,
    }
}

/// What numbers of seconds come to together.
#[derive(Debug, Clone, Copy, PartialEq, Eq)]
pub enum Length {
    Finite(Span),
    Infinite { negative: bool },
    NoNumber,
}

impl View for Length {
    type V = Total;

    open spec fn view(&self) -> Total {
        match *self {
            Length::Finite(span) => Total::Finite(span.value()),
            Length::Infinite { negative } => Total::Infinite { negative },
            Length::NoNumber => Total::NoNumber,
        }
    }
}

impl Length {
    /// This as a count of thousandths.
    pub fn count(&self) -> (r: u64)
        ensures
            r == counted(self@),
    {
        match self {
            Length::Finite(span) => span.count(),
            Length::Infinite { negative } => if *negative {
                0
            } else {
                0xFFFF_FFFF_FFFF_FFFF
            },
            Length::NoNumber => 0,
        }
    }

    /// Whether a moment lies before this.
    pub fn follows(&self, at: i64) -> (r: bool)
        ensures
            r == is_before(at as int, self@),
    {
        match self {
            Length::Finite(span) => span.follows(at),
            Length::Infinite { negative } => !*negative,
            Length::NoNumber => false,
        }
    }
}

/// A sum on the way: what goes on and what goes back, and what cannot be
/// counted.
#[derive(Clone, Copy)]
pub struct Sum {
    ahead: u128,
    back: u128,
    endless: bool,
    endless_back: bool,
    no_number: bool,
}

impl Sum {
    /// What it comes to so far.
    pub closed spec fn total(self) -> Total {
        if self.no_number || (self.endless && self.endless_back) {
            Total::NoNumber
        } else if self.endless {
            Total::Infinite { negative: false }
        } else if self.endless_back {
            Total::Infinite { negative: true }
        } else {
            Total::Finite(self.ahead - self.back)
        }
    }

    /// Whether no more than `n` numbers of seconds were added.
    pub closed spec fn within(self, n: int) -> bool {
        self.ahead <= n * 0xFFFF_FFFF_FFFF_FFFF && self.back <= n * 0xFFFF_FFFF_FFFF_FFFF
    }

    pub fn new() -> (r: Sum)
        ensures
            r.total() == Total::Finite(0),
            r.within(0),
    {
        Sum { ahead: 0, back: 0, endless: false, endless_back: false, no_number: false }
    }

    /// This with one more, of which there have been `n`.
    pub fn with(&self, seconds: Seconds, n: usize) -> (r: Sum)
        requires
            n < usize::MAX,
            self.within(n as int),
        ensures
            r.total() == plus(self.total(), amount(seconds)),
            r.within(n + 1),
    {
        let mut sum = *self;
        match seconds {
            Seconds::Finite { negative, thousandths } => {
                if negative {
                    sum.back = sum.back + thousandths as u128;
                } else {
                    sum.ahead = sum.ahead + thousandths as u128;
                }
            },
            Seconds::Infinite { negative } => {
                if negative {
                    sum.endless_back = true;
                } else {
                    sum.endless = true;
                }
            },
            Seconds::NoNumber => {
                sum.no_number = true;
            },
        }
        sum
    }

    pub fn length(&self) -> (r: Length)
        ensures
            r@ == self.total(),
    {
        if self.no_number || (self.endless && self.endless_back) {
            Length::NoNumber
        } else if self.endless {
            Length::Infinite { negative: false }
        } else if self.endless_back {
            Length::Infinite { negative: true }
        } else {
            Length::Finite(Span::between(self.ahead, self.back))
        }
    }
}

/// Sums do not depend on the order, nothing changes nothing, and what is added
/// can be taken away again as long as it can be counted.
pub proof fn law_sums_do_not_depend_on_the_order(a: Total, b: Total, c: Total)
    ensures
        plus(a, b) == plus(b, a),
        plus(plus(a, b), c) == plus(a, plus(b, c)),
        plus(a, Total::Finite(0)) == a,
        b is Finite ==> plus(plus(a, b), opposite(b)) == a,
        a is NoNumber ==> plus(a, b) is NoNumber,
{
}

/// What goes on for longer reaches every moment that what is shorter does.
pub proof fn law_longer_reaches_further(x: int, y: int, at: int)
    requires
        x <= y,
    ensures
        is_before(at, Total::Finite(x)) ==> is_before(at, Total::Finite(y)),
        is_before(at, Total::Infinite { negative: false }),
        !is_before(at, Total::Infinite { negative: true }),
        !is_before(at, Total::NoNumber),
        is_before(at, Total::Finite(x)) <==> at < x,
        0 <= x <= u64::MAX ==> counted(Total::Finite(x)) == x,
        x < 0 ==> counted(Total::Finite(x)) == 0,
        counted(Total::Infinite { negative: false }) == u64::MAX,
{
}

} // verus!
