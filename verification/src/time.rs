//! Instants and slot arithmetic.
//!
//! An instant is a count of seconds relative to the UTC epoch (midnight at
//! the start of 1970-01-01), so all calendar arithmetic here is plain
//! integer arithmetic: a day is 86400 seconds, an hour 3600, a slot 900.
//! The epoch sits at midnight of a calendar day, and 900 divides 86400, so
//! slot boundaries computed from the raw second count agree with slot
//! boundaries computed from calendar fields.

use vstd::arithmetic::div_mod::{
    lemma_fundamental_div_mod, lemma_fundamental_div_mod_converse_mod,
    lemma_mod_division_less_than_divisor, lemma_mod_multiples_basic, lemma_div_is_ordered,
};
use vstd::prelude::*;

verus! {

/// An absolute instant, second precision, as seconds relative to the UTC
/// epoch. Negative values are instants before the epoch.
#[derive(Clone, Copy, PartialEq, Eq, Structural, Debug)]
pub struct Timestamp {
    pub secs: i64,
}

impl View for Timestamp {
    type V = int;

    open spec fn view(&self) -> int {
        self.secs as int
    }
}

/// The canonical slot key of the slot containing instant `t`: `t` floored
/// to the nearest 15-minute (900-second) boundary below it.
pub open spec fn slot_of(t: int) -> int {
    t - t % 900
}

/// The minute component of the calendar time at instant `t` (0 to 59).
pub open spec fn minute_of(t: int) -> int {
    (t % 3600) / 60
}

/// The hour component of the calendar time at instant `t` (0 to 23).
pub open spec fn hour_of(t: int) -> int {
    (t % 86400) / 3600
}

/// An hour-tick instant: the minute component is zero and the hour
/// component is even. Seconds play no part in the decision.
pub open spec fn is_hour_tick(t: int) -> bool {
    minute_of(t) == 0 && hour_of(t) % 2 == 0
}

/// The fixed start-of-day anchor for the calendar day containing `t`:
/// 02:00 of that day, a deliberate non-midnight anchor.
pub open spec fn day_start_of(t: int) -> int {
    t - t % 86400 + 7200
}

/// Flooring to a slot boundary is idempotent: a slot key is its own slot key.
pub proof fn lemma_slot_idempotent(t: int)
    ensures
        slot_of(slot_of(t)) == slot_of(t),
{
    lemma_fundamental_div_mod(t, 900);
    lemma_mod_multiples_basic(t / 900, 900);
}

/// Flooring to a slot boundary is monotonic: later instants never floor to
/// an earlier slot.
pub proof fn lemma_slot_monotonic(t1: int, t2: int)
    requires
        t1 <= t2,
    ensures
        slot_of(t1) <= slot_of(t2),
{
    lemma_fundamental_div_mod(t1, 900);
    lemma_fundamental_div_mod(t2, 900);
    lemma_div_is_ordered(t1, t2, 900);
}

/// The hour-tick test over calendar components agrees with a single
/// remainder test on the raw second count: `t` lies in the first minute of
/// an even hour exactly when `t` is fewer than 60 seconds past a multiple
/// of two hours.
proof fn lemma_hour_tick_mod(t: int)
    ensures
        is_hour_tick(t) <==> t % 7200 < 60,
{
    let q = t / 86400;
    let d = t % 86400;
    lemma_fundamental_div_mod(t, 86400);
    lemma_mod_division_less_than_divisor(t, 86400);
    let h = d / 3600;
    let s = d % 3600;
    lemma_fundamental_div_mod(d, 3600);
    lemma_mod_division_less_than_divisor(d, 3600);
    // The whole days below `t` vanish from the remainders mod 3600 and 7200.
    assert(t == 3600 * (24 * q) + d) by (nonlinear_arith)
        requires
            t == 86400 * q + d,
    ;
    lemma_fundamental_div_mod_converse_mod(t, 3600, 24 * q + h, s);
    assert(t % 3600 == s);
    assert(minute_of(t) == s / 60);
    lemma_mod_division_less_than_divisor(s, 60);
    lemma_fundamental_div_mod(s, 60);
    assert(s / 60 == 0 <==> s < 60);
    let hq = h / 2;
    let hr = h % 2;
    lemma_fundamental_div_mod(h, 2);
    lemma_mod_division_less_than_divisor(h, 2);
    assert(t == 7200 * (12 * q + hq) + (3600 * hr + s)) by (nonlinear_arith)
        requires
            t == 86400 * q + d,
            d == 3600 * h + s,
            h == 2 * hq + hr,
    ;
    lemma_fundamental_div_mod_converse_mod(t, 7200, 12 * q + hq, 3600 * hr + s);
    assert(t % 7200 == 3600 * hr + s);
}

impl Timestamp {
    pub fn new(secs: i64) -> (r: Timestamp)
        ensures
            r@ == secs as int,
    {
        Timestamp { secs }
    }

    /// Floor this instant to the start of its 15-minute slot.
    pub fn floor_to_slot(self) -> (r: Timestamp)
        requires
            self@ > i64::MIN + 900,
        ensures
            r@ == slot_of(self@),
    {
        let m = self.secs % 900;
        if m < 0 {
            Timestamp { secs: self.secs - (m + 900) }
        } else {
            Timestamp { secs: self.secs - m }
        }
    }

    /// Does this instant lie in the first minute of an even hour?
    pub fn even_full_hour(self) -> (r: bool)
        ensures
            r == is_hour_tick(self@),
    {
        let m = self.secs % 7200;
        let e = if m < 0 {
            m + 7200
        } else {
            m
        };
        proof {
            lemma_hour_tick_mod(self@);
        }
        e < 60
    }

    /// The start-of-day anchor of this instant's calendar day: 02:00 of
    /// the same day.
    pub fn start_of_day(self) -> (r: Timestamp)
        requires
            self@ > i64::MIN + 86400,
            self@ < i64::MAX - 7200,
        ensures
            r@ == day_start_of(self@),
    {
        let m = self.secs % 86400;
        let e = if m < 0 {
            m + 86400
        } else {
            m
        };
        Timestamp { secs: self.secs - e + 7200 }
    }
}

} // verus!
