//! Summons: claiming the ceiling and starter rewards, paying for a draw, the heroes a
//! pickup names, and which draws are pity or bonus draws.
use vstd::prelude::*;
use crate::error::{rule, is_rule, ServerError};

verus! {

/// What a claim of a ceiling reward (`pet` for the pet summon's) or of a starter summon's
/// last reward (`starter`) gives: a ceiling claim must match the summon's kind
/// (`InvalidValue`); the threshold must be set and reached by the draws not claimed yet
/// (or the starter draws), and a starter reward is taken once (`NotEnoughCount`). Gives
/// the claimed count after.
pub open spec fn ceiling_of(starter: bool, pet: bool, summon_is_pet: bool, threshold: i64, starter_draws: i64, gacha_count: i64, claimed: i64, taken: bool) -> Result<i64, Seq<char>> {
    if !starter && pet != summon_is_pet {
        Err("InvalidValue"@)
    } else if threshold <= 0 || (if starter { starter_draws as int } else { gacha_count - claimed }) < threshold || (starter && taken) {
        Err("NotEnoughCount"@)
    } else {
        Ok(if starter { claimed } else { (claimed + threshold) as i64 })
    }
}

/// Claims a ceiling or starter reward; see `ceiling_of`.
pub fn ceiling_claim(starter: bool, pet: bool, summon_is_pet: bool, threshold: i64, starter_draws: i64, gacha_count: i64, claimed: i64, taken: bool) -> (r: Result<i64, ServerError>)
    requires
        i64::MIN <= gacha_count - claimed <= i64::MAX,
        i64::MIN <= claimed + threshold <= i64::MAX,
    ensures
        match ceiling_of(starter, pet, summon_is_pet, threshold, starter_draws, gacha_count, claimed, taken) {
            Ok(c) => r == Ok::<i64, ServerError>(c),
            Err(e) => r is Err && is_rule(r->Err_0, e),
        },
{
    if !starter && pet != summon_is_pet {
        return Err(rule("InvalidValue"));
    }
    let have = if starter { starter_draws } else { gacha_count - claimed };
    if threshold <= 0 || have < threshold || (starter && taken) {
        return Err(rule("NotEnoughCount"));
    }
    Ok(if starter { claimed } else { claimed + threshold })
}

/// A ceiling reward is claimed once for each threshold of draws: right after a claim,
/// claiming again with the same draws succeeds only when they reach a second threshold.
pub proof fn lemma_ceiling_claimed_once(pet: bool, summon_is_pet: bool, threshold: i64, gacha_count: i64, claimed: i64)
    requires
        ceiling_of(false, pet, summon_is_pet, threshold, 0, gacha_count, claimed, false) is Ok,
    ensures
        ({
            let after = ceiling_of(false, pet, summon_is_pet, threshold, 0, gacha_count, claimed, false)->Ok_0;
            &&& after == claimed + threshold
            &&& (ceiling_of(false, pet, summon_is_pet, threshold, 0, gacha_count, after, false) is Ok
                <==> gacha_count - claimed >= 2 * threshold)
        }),
{
}

/// The checks before a draw: a starter summon drawn its number of times
/// (`StartPickupLimitOver`), a pet draw on another summon (`GachaDataNotFound`), and a
/// free draw with a ticket (`InvalidValue`).
pub fn draw_start_check(starter_count: i64, starter_draws: i64, pet_draw: bool, summon_is_pet: bool, ticket: i64, free: bool) -> (r: Result<(), ServerError>)
    ensures
        if starter_count > 0 && starter_draws >= starter_count {
            r is Err && is_rule(r->Err_0, "StartPickupLimitOver"@)
        } else if pet_draw && !summon_is_pet {
            r is Err && is_rule(r->Err_0, "GachaDataNotFound"@)
        } else if ticket > 0 && free {
            r is Err && is_rule(r->Err_0, "InvalidValue"@)
        } else {
            r is Ok
        },
{
    if starter_count > 0 && starter_draws >= starter_count {
        return Err(rule("StartPickupLimitOver"));
    }
    if pet_draw && !summon_is_pet {
        return Err(rule("GachaDataNotFound"));
    }
    if ticket > 0 && free {
        return Err(rule("InvalidValue"));
    }
    Ok(())
}

/// Refuses a free draw when today's free draws are used up or the cool-down since the
/// last one runs (`NotFreeTime`).
pub fn free_draw_check(daily_max: i64, daily_free: i64, last_free: i64, cool: i64, now: i64) -> (r: Result<(), ServerError>)
    requires
        i64::MIN <= last_free + cool <= i64::MAX,
    ensures
        r is Ok <==> !(daily_max <= daily_free || last_free + cool > now),
        r is Err ==> is_rule(r->Err_0, "NotFreeTime"@),
{
    if daily_max <= daily_free || last_free + cool > now {
        return Err(rule("NotFreeTime"));
    }
    Ok(())
}

/// Refuses a draw ticket that does not name the summon, or names another category
/// (`ItemTypeMismatch`).
pub fn ticket_check(summons: &Vec<i64>, id: i64, ticket_category: i64, category: i64) -> (r: Result<(), ServerError>)
    ensures
        r is Ok <==> (summons@.contains(id) && !(ticket_category > 0 && ticket_category != category)),
        r is Err ==> is_rule(r->Err_0, "ItemTypeMismatch"@),
{
    let mut listed = false;
    let mut i: usize = 0;
    while i < summons.len()
        invariant
            i <= summons@.len(),
            listed <==> exists|k: int| 0 <= k < i && summons@[k] == id,
        decreases summons@.len() - i,
    {
        if summons[i] == id {
            listed = true;
        }
        i = i + 1;
    }
    if !listed || (ticket_category > 0 && ticket_category != category) {
        return Err(rule("ItemTypeMismatch"));
    }
    Ok(())
}

/// The price of a paid draw after a discount kept within 0 to 100 percent, each amount
/// rounded toward zero: gold, gems and the mileage earned. Refused for a summon sold for
/// tickets only (`ItemNotOwned`) and for a price of nothing (`InvalidCost`).
pub fn draw_price(ticket_only: bool, open_gold: i64, open_gem: i64, mileage: i64, discount: i64) -> (r: Result<(i64, i64, i64), ServerError>)
    requires
        -0x1_0000_0000_0000 <= open_gold <= 0x1_0000_0000_0000,
        -0x1_0000_0000_0000 <= open_gem <= 0x1_0000_0000_0000,
        -0x1_0000_0000_0000 <= mileage <= 0x1_0000_0000_0000,
    ensures
        ({
            let d = if discount < 0 { 0int } else if discount > 100 { 100int } else { discount as int };
            let gold = crate::live::trunc_div(open_gold * (100 - d), 100);
            let gem = crate::live::trunc_div(open_gem * (100 - d), 100);
            if ticket_only {
                r is Err && is_rule(r->Err_0, "ItemNotOwned"@)
            } else if gold + gem <= 0 {
                r is Err && is_rule(r->Err_0, "InvalidCost"@)
            } else {
                r is Ok && r->Ok_0.0 == gold && r->Ok_0.1 == gem && r->Ok_0.2 == crate::live::trunc_div(mileage * (100 - d), 100)
            }
        }),
{
    if ticket_only {
        return Err(rule("ItemNotOwned"));
    }
    let d: i64 = if discount < 0 { 0 } else if discount > 100 { 100 } else { discount };
    proof {
        assert(-100 * 0x1_0000_0000_0000 <= open_gold * (100 - d) <= 100 * 0x1_0000_0000_0000) by (nonlinear_arith)
            requires 0 <= 100 - d <= 100, -0x1_0000_0000_0000 <= open_gold <= 0x1_0000_0000_0000;
        assert(-100 * 0x1_0000_0000_0000 <= open_gem * (100 - d) <= 100 * 0x1_0000_0000_0000) by (nonlinear_arith)
            requires 0 <= 100 - d <= 100, -0x1_0000_0000_0000 <= open_gem <= 0x1_0000_0000_0000;
        assert(-100 * 0x1_0000_0000_0000 <= mileage * (100 - d) <= 100 * 0x1_0000_0000_0000) by (nonlinear_arith)
            requires 0 <= 100 - d <= 100, -0x1_0000_0000_0000 <= mileage <= 0x1_0000_0000_0000;
    }
    let gold = tdiv100(open_gold * (100 - d));
    let gem = tdiv100(open_gem * (100 - d));
    if gold + gem <= 0 {
        return Err(rule("InvalidCost"));
    }
    Ok((gold, gem, tdiv100(mileage * (100 - d))))
}

fn tdiv100(a: i64) -> (r: i64)
    ensures
        r == crate::live::trunc_div(a as int, 100),
{
    if a >= 0 {
        a / 100
    } else {
        let q = (-(a as i128)) / 100;
        (-q) as i64
    }
}

/// Checks the heroes a pickup summon names (`HeroIndices`): exactly as many as it picks,
/// each one it offers; a summon without a pickup takes none (`InvalidValue`).
pub fn pickup_check(selected: &Vec<i64>, pickup_count: i64, offered: &Vec<i64>) -> (r: Result<(), ServerError>)
    ensures
        r is Ok <==> (if pickup_count > 0 {
            selected@.len() == pickup_count && forall|k: int| 0 <= k < selected@.len() ==> offered@.contains(#[trigger] selected@[k])
        } else {
            selected@.len() == 0
        }),
        r is Err ==> is_rule(r->Err_0, "InvalidValue"@),
{
    if pickup_count > 0 {
        if selected.len() as i128 != pickup_count as i128 {
            return Err(rule("InvalidValue"));
        }
        let mut k: usize = 0;
        while k < selected.len()
            invariant
                k <= selected@.len(),
                forall|j: int| 0 <= j < k ==> offered@.contains(#[trigger] selected@[j]),
            decreases selected@.len() - k,
        {
            let x = selected[k];
            let mut found = false;
            let mut i: usize = 0;
            while i < offered.len()
                invariant
                    i <= offered@.len(),
                    found <==> exists|q: int| 0 <= q < i && offered@[q] == x,
                decreases offered@.len() - i,
            {
                if offered[i] == x {
                    found = true;
                }
                i = i + 1;
            }
            if !found {
                return Err(rule("InvalidValue"));
            }
            k = k + 1;
        }
        Ok(())
    } else if selected.len() > 0 {
        Err(rule("InvalidValue"))
    } else {
        Ok(())
    }
}

/// Whether draw `i` of a summon drawn `done` times before is a pity draw: every
/// `pity_every`-th draw overall when pity is set.
pub open spec fn pity_draw(pity_every: i64, done: i64, i: int) -> bool {
    pity_every > 0 && (done + i + 1) % (pity_every as int) == 0
}

/// The draws of one summon: `bid` plain draws then `bonus_bid` bonus draws, 1 to 100 in
/// all (`InvalidValue`). Gives, for each draw, whether it is a pity draw and whether it is
/// a bonus draw.
pub fn draw_plan(bid: i64, bonus_bid: i64, pity_every: i64, done: i64) -> (r: Result<Vec<(bool, bool)>, ServerError>)
    requires
        -0x1_0000_0000_0000 <= bid <= 0x1_0000_0000_0000,
        -0x1_0000_0000_0000 <= bonus_bid <= 0x1_0000_0000_0000,
        0 <= done <= 0x4000_0000_0000_0000,
    ensures
        !(1 <= bid + bonus_bid <= 100) ==> r is Err && is_rule(r->Err_0, "InvalidValue"@),
        (1 <= bid + bonus_bid <= 100) ==> r is Ok && r->Ok_0@.len() == bid + bonus_bid
            && forall|i: int| 0 <= i < r->Ok_0@.len() ==> (#[trigger] r->Ok_0@[i]).0 == pity_draw(pity_every, done, i) && r->Ok_0@[i].1 == (i >= bid),
{
    let count = bid + bonus_bid;
    if count < 1 || count > 100 {
        return Err(rule("InvalidValue"));
    }
    let mut out: Vec<(bool, bool)> = Vec::new();
    let mut i: i64 = 0;
    while i < count
        invariant
            1 <= count <= 100,
            0 <= i <= count,
            0 <= done <= 0x4000_0000_0000_0000,
            out@.len() == i,
            forall|k: int| 0 <= k < i ==> (#[trigger] out@[k]).0 == pity_draw(pity_every, done, k) && out@[k].1 == (k >= bid),
        decreases count - i,
    {
        let pity = pity_every > 0 && (done + i + 1) % pity_every == 0;
        out.push((pity, i >= bid));
        i = i + 1;
    }
    Ok(out)
}

} // verus!
