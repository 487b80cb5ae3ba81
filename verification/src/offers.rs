//! Paid offers: prices with their server-wide discount, purchase limits, the selection
//! shop's restocks and purchase dungeons.
use vstd::prelude::*;
use crate::error::{rule, is_rule, ServerError};

verus! {

/// The offers bought server-wide this period: the saved count when it is of `period`,
/// else none.
pub open spec fn used_of(saved_period: i64, saved_count: i64, period: i64) -> i64 {
    if saved_period == period { saved_count } else { 0 }
}

/// The price of an offer of price `price` of which `used` were bought server-wide: while
/// fewer than the discount limit were bought, the discount (kept within 0 to 99 percent)
/// applies, rounded toward zero. Refused when the price is not positive (`InvalidCost`).
/// Gives the price, whether the discount applied, and how many discounted offers are left.
pub fn offer_price(price: i64, limit: i64, percent: i64, used: i64) -> (r: Result<(i64, bool, i64), ServerError>)
    requires
        -0x1_0000_0000_0000 <= price <= 0x1_0000_0000_0000,
        i64::MIN <= limit - used <= i64::MAX,
    ensures
        ({
            let d = if limit > used { if percent < 0 { 0int } else if percent > 99 { 99int } else { percent as int } } else { 0int };
            let p = crate::live::trunc_div(price * (100 - d), 100);
            if p <= 0 {
                r is Err && is_rule(r->Err_0, "InvalidCost"@)
            } else {
                r is Ok && r->Ok_0.0 == p && r->Ok_0.1 == (d > 0) && r->Ok_0.2 == (if limit - used > 0 { limit - used } else { 0 })
            }
        }),
{
    let d: i64 = if limit > used { if percent < 0 { 0 } else if percent > 99 { 99 } else { percent } } else { 0 };
    proof {
        assert(-100 * 0x1_0000_0000_0000 <= price * (100 - d) <= 100 * 0x1_0000_0000_0000) by (nonlinear_arith)
            requires 1 <= 100 - d <= 100, -0x1_0000_0000_0000 <= price <= 0x1_0000_0000_0000;
    }
    let full = price * (100 - d);
    let p = if full >= 0 { full / 100 } else { -((-full) / 100) };
    if p <= 0 {
        return Err(rule("InvalidCost"));
    }
    let left = limit - used;
    Ok((p, d > 0, if left > 0 { left } else { 0 }))
}

/// Refuses an offer bought as many times as it may be (`ExceededPurchaseCount`); a limit
/// of 0 or less means none.
pub fn purchase_limit_check(limit: i64, bought: i64) -> (r: Result<(), ServerError>)
    ensures
        r is Ok <==> !(limit > 0 && bought >= limit),
        r is Err ==> is_rule(r->Err_0, "ExceededPurchaseCount"@),
{
    if limit > 0 && bought >= limit {
        return Err(rule("ExceededPurchaseCount"));
    }
    Ok(())
}

/// What the selection shop does when asked at `now` (`refresh` when the player restocks
/// it), given its saved end time and restock count (none when there is none): none when
/// the saved selection stands; else the restock count of a new selection (0 once the old
/// one ended, and one more for a restock). A restock past the most restocks is refused
/// (`InvalidValue`).
pub fn selection_restock(saved: Option<(i64, i64)>, now: i64, refresh: bool, max_resets: i64) -> (r: Result<Option<i64>, ServerError>)
    requires
        saved matches Some(s) ==> s.1 < i64::MAX,
    ensures
        ({
            let expired = match saved { None => true, Some(s) => s.0 <= now };
            let resets = if expired { 0 } else { (saved->0).1 as int };
            if !expired && !refresh {
                r == Ok::<Option<i64>, ServerError>(None)
            } else if refresh && resets >= max_resets {
                r is Err && is_rule(r->Err_0, "InvalidValue"@)
            } else {
                r == Ok::<Option<i64>, ServerError>(Some((resets + if refresh { 1int } else { 0int }) as i64))
            }
        }),
{
    let expired = match saved { None => true, Some(s) => s.0 <= now };
    if !expired && !refresh {
        return Ok(None);
    }
    let resets: i64 = if expired { 0 } else { match saved { Some(s) => s.1, None => 0 } };
    if refresh && resets >= max_resets {
        return Err(rule("InvalidValue"));
    }
    Ok(Some(resets + if refresh { 1 } else { 0 }))
}

/// Buys time on a purchase dungeon's booster: the dungeon must be for sale at the price
/// the request names (`InvalidCost`), and the booster must last from a second to a year
/// (`InvalidValue`); the time adds to what is left of it (or starts now). Gives the end
/// time.
pub fn dungeon_booster(buyable: bool, price: i64, named: i64, duration: Option<i64>, old_end: i64, now: i64) -> (r: Result<i64, ServerError>)
    requires
        -0x4000_0000_0000_0000 <= old_end <= 0x4000_0000_0000_0000,
        -0x4000_0000_0000_0000 <= now <= 0x4000_0000_0000_0000,
    ensures
        if !buyable || named != price {
            r is Err && is_rule(r->Err_0, "InvalidCost"@)
        } else {
            match duration {
                None => r is Err && is_rule(r->Err_0, "BoosterDataNotFound"@),
                Some(d) => if d <= 0 || d > 31536000 {
                    r is Err && is_rule(r->Err_0, "InvalidValue"@)
                } else {
                    r == Ok::<i64, ServerError>(((if old_end > now { old_end } else { now }) + d) as i64)
                },
            }
        },
{
    if !buyable || named != price {
        return Err(rule("InvalidCost"));
    }
    let d = match duration {
        None => { return Err(rule("BoosterDataNotFound")); },
        Some(d) => d,
    };
    if d <= 0 || d > 31536000 {
        return Err(rule("InvalidValue"));
    }
    let start = if old_end > now { old_end } else { now };
    Ok(start + d)
}

} // verus!
