//! Running tallies for the reset race.
//!
//! Several bots rush each round, so three outcomes are told apart:
//!   * won: our transaction confirmed and advanced the round;
//!   * lost: the round advanced, but someone else's reset landed first;
//!   * failed: the round did not advance at all after our attempts, because
//!     of an entropy or RPC error, or because we could not land in time.
use crate::text::{decimal, decimal_text};
use vstd::prelude::*;

verus! {

/// How often a round was won, lost, and not advanced. A tally that is full
/// starts again at zero.
pub struct ResetStats {
    won: u64,
    lost: u64,
    failed: u64,
}

/// What [`ResetStats`] has counted.
pub struct Tally {
    pub won: u64,
    pub lost: u64,
    pub failed: u64,
}

/// The next value of a tally.
pub open spec fn bumped(count: u64) -> u64 {
    if count == u64::MAX {
        0
    } else {
        (count + 1) as u64
    }
}

/// A part of a whole. Where the whole is nothing, the share is zero.
pub struct Share {
    pub part: int,
    pub whole: int,
}

impl Share {
    /// Whether this share is at most `other`, both between nothing and all.
    pub open spec fn at_most(self, other: Share) -> bool {
        if self.whole == 0 {
            true
        } else if other.whole == 0 {
            self.part == 0
        } else {
            self.part * other.whole <= other.part * self.whole
        }
    }

    /// The share in tenths of a percent, to the nearest.
    pub open spec fn tenths(self) -> int {
        if self.whole == 0 {
            0
        } else {
            let below = 1000 * self.part / self.whole;
            let rest = 1000 * self.part % self.whole;
            if 2 * rest < self.whole || 2 * rest == self.whole && !halfway_goes_up(below) {
                below
            } else {
                below + 1
            }
        }
    }

    /// The share as a percentage with one decimal.
    pub open spec fn percent(self) -> Seq<char> {
        decimal((self.tenths() / 10) as nat) + "."@ + decimal((self.tenths() % 10) as nat)
    }
}

/// Whether the percentage halfway between `below` and the next tenth goes up.
///
/// It goes to where the nearest double-precision number lies. In twentieths
/// the percentage is the odd number `2 * below + 1`, so a multiple of five is a
/// number of quarters, which has a double of its own and goes to the even
/// tenth. Any other one is halfway in no binary fraction: the last place of its
/// double is rounded by what is left of it, scaled to 53 binary digits, when
/// divided by five.
pub open spec fn halfway_goes_up(below: int) -> bool {
    let twentieths = 2 * below + 1;
    if twentieths % 5 == 0 {
        below % 2 == 1
    } else {
        twentieths * scale_of(twentieths) % 5 >= 3
    }
}

/// The power of two, as a remainder by 15, that scales a percentage up to 100,
/// given in twentieths, to 53 binary digits.
pub open spec fn scale_of(twentieths: int) -> int {
    if twentieths < 2 {
        8
    } else if twentieths < 5 {
        2
    } else if twentieths < 10 {
        1
    } else if twentieths < 20 {
        8
    } else if twentieths < 40 {
        4
    } else if twentieths < 80 {
        2
    } else if twentieths < 160 {
        1
    } else if twentieths < 320 {
        8
    } else if twentieths < 640 {
        4
    } else if twentieths < 1280 {
        2
    } else {
        1
    }
}

impl View for ResetStats {
    type V = Tally;

    closed spec fn view(&self) -> Tally {
        Tally { won: self.won, lost: self.lost, failed: self.failed }
    }
}

impl Tally {
    /// Rounds that were tried.
    pub open spec fn attempted(self) -> int {
        self.won + self.lost + self.failed
    }

    /// Rounds that advanced.
    pub open spec fn advanced(self) -> int {
        self.won + self.lost
    }

    /// The share of the rounds that were tried that we took.
    pub open spec fn win_share(self) -> Share {
        Share { part: self.won as int, whole: self.attempted() }
    }

    /// The share of the rounds that advanced that we took.
    pub open spec fn land_share(self) -> Share {
        Share { part: self.won as int, whole: self.advanced() }
    }

    /// The summary, with the two rates as percentages.
    pub open spec fn summary(self) -> Seq<char> {
        "won="@ + decimal(self.won as nat) + " lost="@ + decimal(self.lost as nat) + " failed="@
            + decimal(self.failed as nat) + " | attempted="@ + decimal(self.attempted() as nat)
            + ", win-rate "@ + self.win_share().percent() + "%, land-rate "@
            + self.land_share().percent() + "%"@
    }
}

fn scale(twentieths: u64) -> (power: u64)
    ensures
        power == scale_of(twentieths as int),
        power <= 8,
{
    if twentieths < 2 {
        8
    } else if twentieths < 5 {
        2
    } else if twentieths < 10 {
        1
    } else if twentieths < 20 {
        8
    } else if twentieths < 40 {
        4
    } else if twentieths < 80 {
        2
    } else if twentieths < 160 {
        1
    } else if twentieths < 320 {
        8
    } else if twentieths < 640 {
        4
    } else if twentieths < 1280 {
        2
    } else {
        1
    }
}

fn goes_up(below: u64) -> (up: bool)
    requires
        below <= 1000,
    ensures
        up == halfway_goes_up(below as int),
{
    let twentieths: u64 = 2 * below + 1;
    if twentieths % 5 == 0 {
        below % 2 == 1
    } else {
        let power = scale(twentieths);
        assert(twentieths * power <= 2001 * 8) by (nonlinear_arith)
            requires
                0 <= twentieths <= 2001,
                0 <= power <= 8,
        ;
        twentieths * power % 5 >= 3
    }
}

proof fn lemma_tenths_bound(share: Share)
    requires
        0 <= share.part <= share.whole,
    ensures
        0 <= share.tenths() <= 1000,
        share.whole > 0 ==> 0 <= 1000 * share.part / share.whole <= 1000,
{
    if share.whole > 0 {
        let x = 1000 * share.part;
        let below = x / share.whole;
        let rest = x % share.whole;
        vstd::arithmetic::div_mod::lemma_fundamental_div_mod(x, share.whole);
        assert(0 <= below <= 1000 && (below == 1000 ==> rest == 0)) by (nonlinear_arith)
            requires
                share.whole > 0,
                0 <= x <= 1000 * share.whole,
                x == share.whole * below + rest,
                0 <= rest < share.whole,
        ;
    }
}

/// Renders the share of `part` in `whole` as a percentage with one decimal, as
/// the quotient in double precision reads for wholes of up to 2^42.
pub fn percent_text(part: u64, whole: u64) -> (text: String)
    requires
        part <= whole,
    ensures
        text@ == (Share { part: part as int, whole: whole as int }).percent(),
{
    let ghost share = Share { part: part as int, whole: whole as int };
    proof {
        lemma_tenths_bound(share);
    }
    let tenths: u64 = if whole == 0 {
        0
    } else {
        let scaled: u128 = 1000 * part as u128;
        let below: u64 = (scaled / whole as u128) as u64;
        let rest: u128 = scaled % whole as u128;
        if 2 * rest < whole as u128 || 2 * rest == whole as u128 && !goes_up(below) {
            below
        } else {
            below + 1
        }
    };
    let mut text = decimal_text(tenths / 10);
    text.append(".");
    text.append(decimal_text(tenths % 10).as_str());
    text
}

impl Default for ResetStats {
    fn default() -> (stats: ResetStats)
        ensures
            stats@ == (Tally { won: 0, lost: 0, failed: 0 }),
    {
        ResetStats { won: 0, lost: 0, failed: 0 }
    }
}

impl ResetStats {
    /// Nothing counted yet.
    pub fn new() -> (stats: ResetStats)
        ensures
            stats@ == (Tally { won: 0, lost: 0, failed: 0 }),
    {
        ResetStats { won: 0, lost: 0, failed: 0 }
    }

    pub fn record_win(&mut self)
        ensures
            final(self)@ == (Tally { won: bumped(old(self)@.won), ..old(self)@ }),
            old(self)@.won < u64::MAX ==> final(self)@.won == old(self)@.won + 1,
            old(self)@.won == u64::MAX ==> final(self)@.won == 0,
    {
        self.won = self.won.wrapping_add(1);
    }

    pub fn record_loss(&mut self)
        ensures
            final(self)@ == (Tally { lost: bumped(old(self)@.lost), ..old(self)@ }),
            old(self)@.lost < u64::MAX ==> final(self)@.lost == old(self)@.lost + 1,
            old(self)@.lost == u64::MAX ==> final(self)@.lost == 0,
    {
        self.lost = self.lost.wrapping_add(1);
    }

    pub fn record_failure(&mut self)
        ensures
            final(self)@ == (Tally { failed: bumped(old(self)@.failed), ..old(self)@ }),
            old(self)@.failed < u64::MAX ==> final(self)@.failed == old(self)@.failed + 1,
            old(self)@.failed == u64::MAX ==> final(self)@.failed == 0,
            final(self)@.land_share() == old(self)@.land_share(),
    {
        self.failed = self.failed.wrapping_add(1);
    }

    /// `(won, lost, failed)`.
    pub fn snapshot(&self) -> (counts: (u64, u64, u64))
        ensures
            counts == (self@.won, self@.lost, self@.failed),
    {
        (self.won, self.lost, self.failed)
    }

    /// One-line human summary, such as
    /// `won=12 lost=3 failed=1 | attempted=16, win-rate 75.0%, land-rate 80.0%`.
    /// The win rate: of every round we tried, how many we took. The land rate:
    /// of the rounds that advanced, how many were ours.
    pub fn summary(&self) -> (line: String)
        requires
            self@.attempted() <= u64::MAX,
        ensures
            line@ == self@.summary(),
    {
        let advanced: u64 = self.won + self.lost;
        let attempted: u64 = advanced + self.failed;
        let mut line = String::from_str("won=");
        line.append(decimal_text(self.won).as_str());
        line.append(" lost=");
        line.append(decimal_text(self.lost).as_str());
        line.append(" failed=");
        line.append(decimal_text(self.failed).as_str());
        line.append(" | attempted=");
        line.append(decimal_text(attempted).as_str());
        line.append(", win-rate ");
        line.append(percent_text(self.won, attempted).as_str());
        line.append("%, land-rate ");
        line.append(percent_text(self.won, advanced).as_str());
        line.append("%");
        line
    }
}

/// The smaller of two shares of the same part reads no larger.
proof fn lemma_tenths_fall(part: int, small: int, large: int)
    requires
        0 <= part <= small <= large,
    ensures
        (Share { part, whole: large }).tenths() <= (Share { part, whole: small }).tenths(),
{
    let x = 1000 * part;
    if small > 0 && small < large {
        let t1 = x / large;
        let r1 = x % large;
        let t2 = x / small;
        let r2 = x % small;
        vstd::arithmetic::div_mod::lemma_fundamental_div_mod(x, large);
        vstd::arithmetic::div_mod::lemma_fundamental_div_mod(x, small);
        assert(0 <= t1 <= t2 && (t1 == t2 ==> r1 <= r2)) by (nonlinear_arith)
            requires
                0 < small < large,
                0 <= x,
                x == large * t1 + r1,
                0 <= r1 < large,
                x == small * t2 + r2,
                0 <= r2 < small,
        ;
    } else if small == 0 {
        assert(part == 0);
        if large > 0 {
            assert(0int / large == 0 && 0int % large == 0) by (nonlinear_arith)
                requires
                    large > 0,
            ;
        }
    }
}

/// The win rate is at most the land rate, and neither is more than all, as
/// shares and as they read.
pub proof fn law_win_rate_is_at_most_land_rate(tally: Tally)
    ensures
        tally.win_share().at_most(tally.land_share()),
        tally.land_share().at_most(Share { part: 1, whole: 1 }),
        tally.win_share().at_most(Share { part: 1, whole: 1 }),
        0 <= tally.win_share().tenths() <= tally.land_share().tenths() <= 1000,
{
    let won = tally.won as int;
    let advanced = tally.advanced();
    let attempted = tally.attempted();
    assert(won * advanced <= won * attempted) by (nonlinear_arith)
        requires
            0 <= won,
            advanced <= attempted,
    ;
    lemma_tenths_bound(tally.land_share());
    lemma_tenths_bound(tally.win_share());
    lemma_tenths_fall(won, advanced, attempted);
}

/// A failure never changes the land rate, nor how it reads.
pub proof fn law_failure_leaves_the_land_rate(tally: Tally)
    ensures
        (Tally { failed: bumped(tally.failed), ..tally }).land_share() == tally.land_share(),
        (Tally { failed: bumped(tally.failed), ..tally }).land_share().percent()
            == tally.land_share().percent(),
{
}

} // verus!
