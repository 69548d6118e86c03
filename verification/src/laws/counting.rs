//! The tallies, and how they read.
use crate::stats::{Share, Tally};
use crate::text::decimal;
use vstd::prelude::*;

verus! {

/// A percentage is to the nearest tenth: it is off by no more than half of one.
pub proof fn law_percentage_is_to_the_nearest_tenth(share: Share)
    requires
        0 <= share.part <= share.whole,
        share.whole > 0,
    ensures
        -share.whole <= 2 * (share.tenths() * share.whole - 1000 * share.part) <= share.whole,
{
    let x = 1000 * share.part;
    let below = x / share.whole;
    let rest = x % share.whole;
    vstd::arithmetic::div_mod::lemma_fundamental_div_mod(x, share.whole);
    assert(below * share.whole == x - rest) by (nonlinear_arith)
        requires
            x == share.whole * below + rest,
    ;
    assert((below + 1) * share.whole == below * share.whole + share.whole) by (nonlinear_arith);
}

/// A percentage is that of the share, not of the counts: it reads the same when
/// part and whole grow by the same factor.
pub proof fn law_percentage_is_that_of_the_share(share: Share, factor: int)
    requires
        0 <= share.part <= share.whole,
        share.whole > 0,
        factor > 0,
    ensures
        (Share { part: factor * share.part, whole: factor * share.whole }).tenths()
            == share.tenths(),
{
    let x = 1000 * share.part;
    let whole = share.whole;
    let below = x / whole;
    let rest = x % whole;
    vstd::arithmetic::div_mod::lemma_fundamental_div_mod(x, whole);
    assert(1000 * (factor * share.part) == factor * x) by (nonlinear_arith)
        requires
            x == 1000 * share.part,
    ;
    assert(factor * x == (factor * whole) * below + factor * rest) by (nonlinear_arith)
        requires
            x == whole * below + rest,
    ;
    assert(0 <= factor * rest < factor * whole) by (nonlinear_arith)
        requires
            0 <= rest < whole,
            factor > 0,
    ;
    vstd::arithmetic::div_mod::lemma_fundamental_div_mod_converse(
        factor * x,
        factor * whole,
        below,
        factor * rest,
    );
    assert(2 * (factor * rest) < factor * whole <==> 2 * rest < whole) by (nonlinear_arith)
        requires
            factor > 0,
    ;
    assert(2 * (factor * rest) == factor * whole <==> 2 * rest == whole) by (nonlinear_arith)
        requires
            factor > 0,
    ;
}

/// The summary shows the three tallies and their sum, and the two rates: of the
/// rounds that were tried and of those that advanced, the share that we took.
pub proof fn law_summary_shows_the_tallies(tally: Tally)
    ensures
        ({
            let (w, l, f) = (tally.won as int, tally.lost as int, tally.failed as int);
            let win = (Share { part: w, whole: w + l + f }).tenths();
            let land = (Share { part: w, whole: w + l }).tenths();
            tally.summary() == "won="@ + decimal(w as nat) + " lost="@ + decimal(l as nat)
                + " failed="@ + decimal(f as nat) + " | attempted="@ + decimal((w + l + f) as nat)
                + ", win-rate "@ + (decimal((win / 10) as nat) + "."@ + decimal(
                (win % 10) as nat,
            )) + "%, land-rate "@ + (decimal((land / 10) as nat) + "."@ + decimal(
                (land % 10) as nat,
            )) + "%"@
        }),
        (Share { part: 0, whole: 0 }).tenths() == 0,
{
}

} // verus!
