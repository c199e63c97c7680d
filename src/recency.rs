use vstd::prelude::*;

verus! {

/// Milliseconds in a day.
pub const MS_PER_DAY: i64 = 86_400_000;

/// A note viewed fewer than this many days ago counts as recently viewed.
pub const RECENT_DAYS: i64 = 7;

/// Whole days from `since` to `now`, both in milliseconds since the epoch,
/// rounded down.
pub open spec fn days_between(now: int, since: int) -> int {
    (now - since) / (MS_PER_DAY as int)
}

/// The days since a note was viewed, where it was viewed recently.
pub open spec fn recent_days(now: int, last_viewed: Option<i64>) -> Option<int> {
    match last_viewed {
        Some(t) => if days_between(now, t as int) < RECENT_DAYS {
            Some(days_between(now, t as int))
        } else {
            None
        },
        None => None,
    }
}

/// Whole days from `since` to `now` (milliseconds since the epoch), rounded
/// down.
pub fn days_since(now: i64, since: i64) -> (r: i64)
    ensures
        r == days_between(now as int, since as int),
{
    let d: u128 = MS_PER_DAY as u128;
    if now >= since {
        let m: u128 = (now as i128 - since as i128) as u128;
        let q: u128 = m / d;
        assert(q <= m);
        q as i64
    } else {
        let m: u128 = (since as i128 - now as i128) as u128;
        let q: u128 = (m + d - 1) / d;
        let ghost (qi, mi, di) = (q as int, m as int, d as int);
        assert(qi * di <= mi + di - 1 < qi * di + di) by (nonlinear_arith)
            requires
                qi == (mi + di - 1) / di,
                di > 0,
        ;
        assert(-qi == (now as int - since as int) / di) by (nonlinear_arith)
            requires
                qi * di <= mi + di - 1 < qi * di + di,
                mi == since as int - now as int,
                di > 0,
        ;
        assert(q <= m);
        -(q as i64)
    }
}

/// Relies on chrono's Utc::now and DateTime::timestamp_millis: the current
/// time in milliseconds since the Unix epoch. Nothing is known of its value.
#[verifier::external_body]
fn now_millis() -> (r: i64) {
    chrono::Utc::now().timestamp_millis()
}

/// The days since a note was viewed, at time `now`, if it was viewed and
/// fewer than `RECENT_DAYS` days ago.
pub fn recency_days(now: i64, last_viewed: Option<i64>) -> (r: Option<i64>)
    ensures
        match r {
            Some(d) => recent_days(now as int, last_viewed) == Some(d as int),
            None => recent_days(now as int, last_viewed).is_none(),
        },
{
    match last_viewed {
        Some(t) => {
            let days = days_since(now, t);
            if days < RECENT_DAYS {
                Some(days)
            } else {
                None
            }
        },
        None => None,
    }
}

/// The days since a note was viewed, as of the current time, if it was viewed
/// recently.
pub fn recency_days_now(last_viewed: Option<i64>) -> (r: Option<i64>)
    ensures
        exists|now: i64|
            match r {
                Some(d) => recent_days(now as int, last_viewed) == Some(d as int),
                None => recent_days(now as int, last_viewed).is_none(),
            },
        last_viewed.is_none() ==> r.is_none(),
        r matches Some(d) ==> d < RECENT_DAYS,
{
    let now = now_millis();
    recency_days(now, last_viewed)
}

} // verus!
