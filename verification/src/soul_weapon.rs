//! Soul weapons: liberation, grade upgrades, ether injection, reinforcement, option
//! renewal and its confirmation, and moving a soul weapon to another item.
use vstd::prelude::*;
use crate::error::{rule, is_rule, ServerError};
use crate::forms::Request;
use crate::text::str_eq;

verus! {

/// The soul weapon state of one equipment item.
#[derive(Clone, Copy)]
pub struct SoulWeapon {
    pub slot: i64,
    pub item_index: i64,
    pub grade: i64,
    pub reinforce_level: i64,
    pub reinforce_ratio: i64,
    pub exp: i64,
    pub option_ratios: (i64, i64),
    pub bonus_ratios: (i64, i64),
    pub renew_count: i64,
    pub pending: bool,
    pub renew_ratios: (i64, i64),
    pub renew_bonus: (i64, i64),
}

/// The price of a grade: gold and one material with its count.
#[derive(Clone, Copy)]
pub struct SoulPrice {
    pub gold: i64,
    pub material: i64,
    pub count: i64,
}

/// A reinforcement level's rules: the experience it needs, the success mark, the gold a
/// reinforcement costs, and the ether codes it refuses.
pub struct ReinforceRule {
    pub required_exp: i64,
    pub success_mark: i64,
    pub gold: i64,
    pub refused_codes: Vec<i64>,
}

/// An ether item: its code, its gold price, the experience it gives and the bonus rate it
/// adds at the weapon's reinforcement level (none when that rate is not defined).
#[derive(Clone, Copy)]
pub struct Ether {
    pub code: i64,
    pub gold: i64,
    pub exp: i64,
    pub bonus: Option<i64>,
}

/// A freshly liberated soul weapon on equipment slot `slot` holding item `item`.
pub open spec fn liberated(slot: i64, item: i64) -> SoulWeapon {
    SoulWeapon {
        slot, item_index: item, grade: 0, reinforce_level: 0, reinforce_ratio: 0, exp: 0,
        option_ratios: (500, 500), bonus_ratios: (0, 0), renew_count: 0, pending: false,
        renew_ratios: (0, 0), renew_bonus: (0, 0),
    }
}

/// Liberates the soul weapon of an item: refused with `AlreadyLiberated` when it has one,
/// and with `ItemDataNotFound` when grade 0 has no price. Gives the new weapon and the price.
pub fn liberate(existing: bool, slot: i64, item: i64, price: Option<SoulPrice>) -> (r: Result<(SoulWeapon, SoulPrice), ServerError>)
    ensures
        existing ==> r is Err && is_rule(r->Err_0, "AlreadyLiberated"@),
        !existing && price is None ==> r is Err && is_rule(r->Err_0, "ItemDataNotFound"@),
        !existing && price is Some ==> r == Ok::<(SoulWeapon, SoulPrice), ServerError>((liberated(slot, item), price->0)),
{
    if existing {
        return Err(rule("AlreadyLiberated"));
    }
    match price {
        None => Err(rule("ItemDataNotFound")),
        Some(p) => Ok((SoulWeapon {
            slot, item_index: item, grade: 0, reinforce_level: 0, reinforce_ratio: 0, exp: 0,
            option_ratios: (500, 500), bonus_ratios: (0, 0), renew_count: 0, pending: false,
            renew_ratios: (0, 0), renew_bonus: (0, 0),
        }, p)),
    }
}

/// Raises a soul weapon one grade. The next grade must be defined (`ItemDataNotFound`),
/// the reinforcement level must reach the next grade times `ratio`
/// (`NotEnoughReinforceLevel`), and the next grade must have a price (`ItemDataNotFound`).
pub fn upgrade(w: SoulWeapon, next_defined: bool, ratio: i64, price: Option<SoulPrice>) -> (r: Result<(SoulWeapon, SoulPrice), ServerError>)
    requires
        w.grade < i64::MAX,
    ensures
        !next_defined ==> r is Err && is_rule(r->Err_0, "ItemDataNotFound"@),
        next_defined && w.reinforce_level < (w.grade + 1) * ratio ==> r is Err && is_rule(r->Err_0, "NotEnoughReinforceLevel"@),
        next_defined && w.reinforce_level >= (w.grade + 1) * ratio && price is None ==> r is Err && is_rule(r->Err_0, "ItemDataNotFound"@),
        next_defined && w.reinforce_level >= (w.grade + 1) * ratio && price is Some ==>
            r == Ok::<(SoulWeapon, SoulPrice), ServerError>((SoulWeapon { grade: (w.grade + 1) as i64, ..w }, price->0)),
{
    let grade = w.grade + 1;
    if !next_defined {
        return Err(rule("ItemDataNotFound"));
    }
    proof {
        assert(-0x4000_0000_0000_0000_0000_0000_0000_0000 <= (grade as int) * (ratio as int) <= 0x4000_0000_0000_0000_0000_0000_0000_0000) by (nonlinear_arith)
            requires i64::MIN <= grade <= i64::MAX, i64::MIN <= ratio <= i64::MAX;
    }
    if (w.reinforce_level as i128) < (grade as i128) * (ratio as i128) {
        return Err(rule("NotEnoughReinforceLevel"));
    }
    match price {
        None => Err(rule("ItemDataNotFound")),
        Some(p) => Ok((SoulWeapon { grade, ..w }, p)),
    }
}

/// The gold, experience and bonus rate that the first `n` ether lots add up to (a lot
/// without ether data adds nothing).
pub open spec fn ether_sums(lots: Seq<(i64, i64)>, ethers: Seq<Option<Ether>>, n: int) -> (int, int, int)
    decreases n,
{
    if n <= 0 {
        (0, 0, 0)
    } else {
        let s = ether_sums(lots, ethers, n - 1);
        let c = lots[n - 1].1 as int;
        match ethers[n - 1] {
            Some(e) => (s.0 + e.gold * c, s.1 + e.exp * c, s.2 + e.bonus.unwrap_or(0) * c),
            None => s,
        }
    }
}

/// Why one ether lot is refused: no ether data (`ItemDataNotFound`), a code the level
/// refuses (`InvalidMaterial`), or no bonus rate at the level (`ItemDataNotFound`).
pub open spec fn lot_refusal(codes: Seq<i64>, e: Option<Ether>) -> Option<Seq<char>> {
    match e {
        None => Some("ItemDataNotFound"@),
        Some(e) => if codes.contains(e.code) {
            Some("InvalidMaterial"@)
        } else if e.bonus is None {
            Some("ItemDataNotFound"@)
        } else {
            None
        },
    }
}

/// The refusal of the first refused lot among the first `n`.
pub open spec fn ether_refusal(codes: Seq<i64>, ethers: Seq<Option<Ether>>, n: int) -> Option<Seq<char>>
    decreases n,
{
    if n <= 0 {
        None
    } else {
        match ether_refusal(codes, ethers, n - 1) {
            Some(e) => Some(e),
            None => lot_refusal(codes, ethers[n - 1]),
        }
    }
}

/// What an injection of ether gives: the weapon with its experience and rate raised and
/// capped (at the level's required experience and at `max_rate`), and the gold it costs.
pub open spec fn injected(w: SoulWeapon, lots: Seq<(i64, i64)>, ethers: Seq<Option<Ether>>, required_exp: i64, max_rate: i64) -> (SoulWeapon, int) {
    let s = ether_sums(lots, ethers, lots.len() as int);
    let exp = w.exp + s.1;
    let rate = w.reinforce_ratio + s.2;
    (SoulWeapon {
        exp: (if exp < required_exp { exp } else { required_exp as int }) as i64,
        reinforce_ratio: (if rate < max_rate { rate } else { max_rate as int }) as i64,
        ..w
    }, s.0)
}

proof fn lemma_ether_sums_bounded(lots: Seq<(i64, i64)>, ethers: Seq<Option<Ether>>, n: int)
    requires
        0 <= n <= lots.len(),
        n <= ethers.len(),
        forall|k: int| 0 <= k < lots.len() ==> 1 <= #[trigger] lots[k].1 <= 100000,
    ensures
        -n * 0x1_0000_0000_0000_0000_0000 <= ether_sums(lots, ethers, n).0 <= n * 0x1_0000_0000_0000_0000_0000,
        -n * 0x1_0000_0000_0000_0000_0000 <= ether_sums(lots, ethers, n).1 <= n * 0x1_0000_0000_0000_0000_0000,
        -n * 0x1_0000_0000_0000_0000_0000 <= ether_sums(lots, ethers, n).2 <= n * 0x1_0000_0000_0000_0000_0000,
    decreases n,
{
    if n > 0 {
        lemma_ether_sums_bounded(lots, ethers, n - 1);
        let c = lots[n - 1].1 as int;
        if ethers[n - 1] is Some {
            let e = ethers[n - 1]->0;
            let b = e.bonus.unwrap_or(0) as int;
            assert(-0x1_0000_0000_0000_0000_0000 <= e.gold * c <= 0x1_0000_0000_0000_0000_0000) by (nonlinear_arith)
                requires i64::MIN <= e.gold <= i64::MAX, 1 <= c <= 100000;
            assert(-0x1_0000_0000_0000_0000_0000 <= e.exp * c <= 0x1_0000_0000_0000_0000_0000) by (nonlinear_arith)
                requires i64::MIN <= e.exp <= i64::MAX, 1 <= c <= 100000;
            assert(-0x1_0000_0000_0000_0000_0000 <= b * c <= 0x1_0000_0000_0000_0000_0000) by (nonlinear_arith)
                requires i64::MIN <= b <= i64::MAX, 1 <= c <= 100000;
        }
    }
}

fn has_code(codes: &Vec<i64>, x: i64) -> (r: bool)
    ensures
        r == codes@.contains(x),
{
    let mut i: usize = 0;
    while i < codes.len()
        invariant
            i <= codes@.len(),
            forall|k: int| 0 <= k < i ==> codes@[k] != x,
        decreases codes@.len() - i,
    {
        if codes[i] == x {
            proof {
                assert(codes@[i as int] == x);
            }
            return true;
        }
        i = i + 1;
    }
    false
}

/// Injects ether into a soul weapon. `lots` are the (item, count) materials and `ethers`
/// the ether data of each lot at the weapon's level. The next reinforcement level and the
/// current one must be defined (`ItemDataNotFound`); there must be materials
/// (`InvalidMaterial`); the first refused lot is refused as `lot_refusal` says; a weapon
/// with full experience and rate is refused (`AlreadyMax`). Gives the weapon and the gold
/// of `injected`.
pub fn inject(w: SoulWeapon, next_defined: bool, level: Option<&ReinforceRule>, lots: &Vec<(i64, i64)>, ethers: &Vec<Option<Ether>>, max_rate: i64)
    -> (r: Result<(SoulWeapon, i128), ServerError>)
    requires
        lots@.len() == ethers@.len(),
        lots@.len() <= 200,
        forall|k: int| 0 <= k < lots@.len() ==> 1 <= #[trigger] lots@[k].1 <= 100000,
    ensures
        !next_defined || level is None ==> r is Err && is_rule(r->Err_0, "ItemDataNotFound"@),
        next_defined && level is Some ==> ({
            let rl = level->0;
            if lots@.len() == 0 {
                r is Err && is_rule(r->Err_0, "InvalidMaterial"@)
            } else {
                match ether_refusal(rl.refused_codes@, ethers@, ethers@.len() as int) {
                    Some(c) => r is Err && is_rule(r->Err_0, c),
                    None => if w.exp >= rl.required_exp && w.reinforce_ratio >= max_rate {
                        r is Err && is_rule(r->Err_0, "AlreadyMax"@)
                    } else {
                        r is Ok && r->Ok_0.0 == injected(w, lots@, ethers@, rl.required_exp, max_rate).0
                            && r->Ok_0.1 == injected(w, lots@, ethers@, rl.required_exp, max_rate).1
                    },
                }
            }
        }),
{
    if level.is_none() || !next_defined {
        return Err(rule("ItemDataNotFound"));
    }
    let rl = level.unwrap();
    if lots.len() == 0 {
        return Err(rule("InvalidMaterial"));
    }
    let mut gold: i128 = 0;
    let mut exp: i128 = 0;
    let mut rate: i128 = 0;
    let mut i: usize = 0;
    while i < lots.len()
        invariant
            next_defined,
            level == Some(rl),
            lots@.len() > 0,
            lots@.len() == ethers@.len(),
            lots@.len() <= 200,
            forall|k: int| 0 <= k < lots@.len() ==> 1 <= #[trigger] lots@[k].1 <= 100000,
            i <= lots@.len(),
            ether_refusal(rl.refused_codes@, ethers@, i as int) is None,
            (gold as int, exp as int, rate as int) == ether_sums(lots@, ethers@, i as int),
        decreases lots@.len() - i,
    {
        let e = match ethers[i] {
            Some(e) => e,
            None => {
                proof {
                    lemma_refusal_keeps(rl.refused_codes@, ethers@, i + 1, ethers@.len() as int);
                }
                return Err(rule("ItemDataNotFound"));
            },
        };
        if has_code(&rl.refused_codes, e.code) {
            proof {
                lemma_refusal_keeps(rl.refused_codes@, ethers@, i + 1, ethers@.len() as int);
            }
            return Err(rule("InvalidMaterial"));
        }
        let b = match e.bonus {
            Some(b) => b,
            None => {
                proof {
                    lemma_refusal_keeps(rl.refused_codes@, ethers@, i + 1, ethers@.len() as int);
                }
                return Err(rule("ItemDataNotFound"));
            },
        };
        let c = lots[i].1;
        proof {
            lemma_ether_sums_bounded(lots@, ethers@, i as int);
            assert(-0x1_0000_0000_0000_0000_0000 <= e.gold * c <= 0x1_0000_0000_0000_0000_0000) by (nonlinear_arith)
                requires i64::MIN <= e.gold <= i64::MAX, 1 <= c <= 100000;
            assert(-0x1_0000_0000_0000_0000_0000 <= e.exp * c <= 0x1_0000_0000_0000_0000_0000) by (nonlinear_arith)
                requires i64::MIN <= e.exp <= i64::MAX, 1 <= c <= 100000;
            assert(-0x1_0000_0000_0000_0000_0000 <= b * c <= 0x1_0000_0000_0000_0000_0000) by (nonlinear_arith)
                requires i64::MIN <= b <= i64::MAX, 1 <= c <= 100000;
        }
        gold = gold + (e.gold as i128) * (c as i128);
        exp = exp + (e.exp as i128) * (c as i128);
        rate = rate + (b as i128) * (c as i128);
        i = i + 1;
    }
    if w.exp >= rl.required_exp && w.reinforce_ratio >= max_rate {
        return Err(rule("AlreadyMax"));
    }
    proof {
        lemma_ether_sums_bounded(lots@, ethers@, lots@.len() as int);
    }
    let total_exp = w.exp as i128 + exp;
    let total_rate = w.reinforce_ratio as i128 + rate;
    let new_exp = if total_exp < rl.required_exp as i128 { total_exp as i64 } else { rl.required_exp };
    let new_rate = if total_rate < max_rate as i128 { total_rate as i64 } else { max_rate };
    Ok((SoulWeapon { exp: new_exp, reinforce_ratio: new_rate, ..w }, gold))
}

proof fn lemma_refusal_keeps(codes: Seq<i64>, a: Seq<Option<Ether>>, m: int, n: int)
    requires
        0 <= m <= n <= a.len(),
        ether_refusal(codes, a, m) is Some,
    ensures
        ether_refusal(codes, a, n) == ether_refusal(codes, a, m),
    decreases n - m,
{
    if n > m {
        lemma_refusal_keeps(codes, a, m, n - 1);
    }
}

} // verus!

verus! {

/// Checks a reinforcement: the next level and the current one must be defined
/// (`ItemDataNotFound`), and the weapon must have the level's experience and a rate of at
/// least ten times its success mark (`NotEnoughExp`). Gives the gold it costs.
pub fn reinforce_check(w: SoulWeapon, next_defined: bool, level: Option<&ReinforceRule>) -> (r: Result<i64, ServerError>)
    ensures
        !next_defined || level is None ==> r is Err && is_rule(r->Err_0, "ItemDataNotFound"@),
        next_defined && level is Some ==> ({
            let rl = level->0;
            if w.exp < rl.required_exp || w.reinforce_ratio < rl.success_mark * 10 {
                r is Err && is_rule(r->Err_0, "NotEnoughExp"@)
            } else {
                r == Ok::<i64, ServerError>(rl.gold)
            }
        }),
{
    if level.is_none() || !next_defined {
        return Err(rule("ItemDataNotFound"));
    }
    let rl = level.unwrap();
    if w.exp < rl.required_exp || (w.reinforce_ratio as i128) < (rl.success_mark as i128) * 10 {
        return Err(rule("NotEnoughExp"));
    }
    Ok(rl.gold)
}

/// The weapon after a reinforcement: one level up when it succeeded, and experience and
/// rate back to 0 either way.
pub open spec fn reinforced(w: SoulWeapon, success: bool) -> SoulWeapon {
    SoulWeapon {
        reinforce_level: if success { (w.reinforce_level + 1) as i64 } else { w.reinforce_level },
        exp: 0,
        reinforce_ratio: 0,
        ..w
    }
}

/// Reinforces a checked weapon: succeeds with a chance of its rate out of `max_rate` (never
/// with a rate of 0 or less, always with a rate of `max_rate` or more). Gives the weapon
/// and whether it succeeded.
pub fn reinforce(w: SoulWeapon, max_rate: i64) -> (r: (SoulWeapon, bool))
    requires
        max_rate > 0,
        w.reinforce_level < i64::MAX,
    ensures
        r.0 == reinforced(w, r.1),
        w.reinforce_ratio <= 0 ==> !r.1,
        w.reinforce_ratio >= max_rate ==> r.1,
{
    let success = crate::gear::roll(w.reinforce_ratio, max_rate);
    let level = if success { w.reinforce_level + 1 } else { w.reinforce_level };
    (SoulWeapon { reinforce_level: level, exp: 0, reinforce_ratio: 0, ..w }, success)
}

/// How an option renewal is paid: with the renewal coupon, or with gems.
pub enum RenewPayment {
    Coupon(i64),
    Gems(i64),
}

/// The gem price of the next renewal: the price at the weapon's renewal count, or the last
/// price once the count runs past the list (a negative count also takes the last).
pub open spec fn renew_price(prices: Seq<i64>, count: int) -> i64 {
    if 0 <= count < prices.len() - 1 { prices[count] } else { prices[prices.len() - 1] }
}

/// The weapon after a renewal draw of `first` (the first ratio, the second being its
/// complement to 1000) and the two bonus ratios: the draw waits for confirmation.
pub open spec fn renewed(w: SoulWeapon, first: i64, b1: i64, b2: i64) -> SoulWeapon {
    SoulWeapon {
        renew_ratios: (first, (1000 - first) as i64),
        renew_bonus: (b1, b2),
        renew_count: (w.renew_count + 1) as i64,
        pending: true,
        ..w
    }
}

/// Renews a soul weapon's options. A pending renewal is refused (`UnconfirmedOption`); a
/// coupon other than the renewal ticket is refused (`InvalidMaterial`); without a coupon
/// the gem prices (`prices`, none when the table lacks them or they are no list of
/// integers) must be a non-empty list (`ItemDataNotFound`). The draw is random: a first
/// ratio in `300..=700` and bonus ratios in `0..=200`.
pub fn renew_option(w: SoulWeapon, coupon: i64, ticket: i64, prices: Option<&Vec<i64>>) -> (r: Result<(SoulWeapon, RenewPayment), ServerError>)
    requires
        w.renew_count < i64::MAX,
    ensures
        w.pending ==> r is Err && is_rule(r->Err_0, "UnconfirmedOption"@),
        !w.pending && coupon > 0 && coupon != ticket ==> r is Err && is_rule(r->Err_0, "InvalidMaterial"@),
        !w.pending && coupon <= 0 && (prices is None || prices->0@.len() == 0) ==> r is Err && is_rule(r->Err_0, "ItemDataNotFound"@),
        !w.pending && coupon > 0 && coupon == ticket ==> r is Ok && r->Ok_0.1 == RenewPayment::Coupon(coupon),
        !w.pending && coupon <= 0 && prices is Some && prices->0@.len() > 0 ==>
            r is Ok && r->Ok_0.1 == RenewPayment::Gems(renew_price(prices->0@, w.renew_count as int)),
        r is Ok ==> exists|first: i64, b1: i64, b2: i64| 300 <= first <= 700 && 0 <= b1 <= 200 && 0 <= b2 <= 200
            && r->Ok_0.0 == renewed(w, first, b1, b2),
{
    if w.pending {
        return Err(rule("UnconfirmedOption"));
    }
    let payment = if coupon > 0 {
        if coupon != ticket {
            return Err(rule("InvalidMaterial"));
        }
        RenewPayment::Coupon(coupon)
    } else {
        let p = match prices {
            Some(p) => p,
            None => { return Err(rule("ItemDataNotFound")); },
        };
        if p.len() == 0 {
            return Err(rule("ItemDataNotFound"));
        }
        let last = p.len() - 1;
        let at = if 0 <= w.renew_count && (w.renew_count as u64) < (last as u64) { w.renew_count as usize } else { last };
        RenewPayment::Gems(p[at])
    };
    let first = crate::dice::random_between(300, 700);
    let b1 = crate::dice::random_between(0, 200);
    let b2 = crate::dice::random_between(0, 200);
    let out = SoulWeapon {
        renew_ratios: (first, 1000 - first),
        renew_bonus: (b1, b2),
        renew_count: w.renew_count + 1,
        pending: true,
        ..w
    };
    proof {
        assert(out == renewed(w, first, b1, b2));
    }
    Ok((out, payment))
}

/// The weapon after a renewal is settled: the drawn options replace the current ones when
/// the player keeps them, the draw is cleared, and nothing waits any more.
pub open spec fn confirmed(w: SoulWeapon, keep_new: bool) -> SoulWeapon {
    SoulWeapon {
        option_ratios: if keep_new { w.renew_ratios } else { w.option_ratios },
        bonus_ratios: if keep_new { w.renew_bonus } else { w.bonus_ratios },
        renew_ratios: (0, 0),
        renew_bonus: (0, 0),
        pending: false,
        ..w
    }
}

/// True when the request keeps the new options (`IsNew` is `true`, `True` or `1`).
pub open spec fn keeps_new(req: Request) -> bool {
    let t = req.text_of("IsNew"@);
    t == "true"@ || t == "True"@ || t == "1"@
}

/// Settles a renewal: refused with `UnconfirmedOption` when none waits; otherwise the
/// weapon after `confirmed`, keeping the draw when the request says so.
pub fn confirm_renew(w: SoulWeapon, req: &Request) -> (r: Result<SoulWeapon, ServerError>)
    ensures
        !w.pending ==> r is Err && is_rule(r->Err_0, "UnconfirmedOption"@),
        w.pending ==> r == Ok::<SoulWeapon, ServerError>(confirmed(w, keeps_new(*req))),
{
    if !w.pending {
        return Err(rule("UnconfirmedOption"));
    }
    let t = req.text("IsNew");
    proof {
        reveal_strlit("1");
    }
    let keep = str_eq(t, "true") || str_eq(t, "True") || str_eq(t, "1");
    let options = if keep { w.renew_ratios } else { w.option_ratios };
    let bonus = if keep { w.renew_bonus } else { w.bonus_ratios };
    Ok(SoulWeapon { option_ratios: options, bonus_ratios: bonus, renew_ratios: (0, 0), renew_bonus: (0, 0), pending: false, ..w })
}

/// Renewing and then declining the draw leaves a weapon's options as they were, and
/// accepting it gives exactly the drawn options; either way nothing waits afterwards and
/// the renewal was counted.
pub proof fn lemma_renew_then_confirm(w: SoulWeapon, first: i64, b1: i64, b2: i64)
    requires
        !w.pending,
        w.renew_count < i64::MAX,
    ensures
        confirmed(renewed(w, first, b1, b2), false).option_ratios == w.option_ratios,
        confirmed(renewed(w, first, b1, b2), false).bonus_ratios == w.bonus_ratios,
        confirmed(renewed(w, first, b1, b2), true).option_ratios == (first, (1000 - first) as i64),
        confirmed(renewed(w, first, b1, b2), true).bonus_ratios == (b1, b2),
        !confirmed(renewed(w, first, b1, b2), false).pending,
        !confirmed(renewed(w, first, b1, b2), true).pending,
        confirmed(renewed(w, first, b1, b2), false).renew_count == w.renew_count + 1,
{
}

/// Checks moving a soul weapon to another item. The target must be another slot and no
/// renewal may wait (`InvalidEquipItem`); the target item must exist (`EquipItemNotFound`;
/// `target` holds whether it is locked and its item); neither item may be locked, both
/// must be the same item, and the target must have no soul weapon (`InvalidEquipItem`).
/// Gives the weapon on its new slot.
pub fn transition(w: SoulWeapon, target_slot: i64, source_locked: bool, target: Option<(bool, i64)>, target_has_soul: bool)
    -> (r: Result<SoulWeapon, ServerError>)
    ensures
        target_slot == w.slot || w.pending ==> r is Err && is_rule(r->Err_0, "InvalidEquipItem"@),
        !(target_slot == w.slot || w.pending) && target is None ==> r is Err && is_rule(r->Err_0, "EquipItemNotFound"@),
        !(target_slot == w.slot || w.pending) && target is Some ==> ({
            let (locked, item) = target->0;
            if source_locked || locked || item != w.item_index || target_has_soul {
                r is Err && is_rule(r->Err_0, "InvalidEquipItem"@)
            } else {
                r == Ok::<SoulWeapon, ServerError>(SoulWeapon { slot: target_slot, ..w })
            }
        }),
{
    if target_slot == w.slot || w.pending {
        return Err(rule("InvalidEquipItem"));
    }
    let (locked, item) = match target {
        None => { return Err(rule("EquipItemNotFound")); },
        Some(t) => t,
    };
    if source_locked || locked || item != w.item_index || target_has_soul {
        return Err(rule("InvalidEquipItem"));
    }
    Ok(SoulWeapon { slot: target_slot, ..w })
}

/// The soul weapon requests.
#[derive(PartialEq, Eq, Structural, Clone, Copy)]
pub enum SoulAction {
    Break,
    LimitBreak,
    Restore,
    Liberation,
    Upgrade,
    Injection,
    Reinforce,
    RenewOption,
    ConfirmRenewOption,
    Transition,
}

/// The request an action name asks for.
pub open spec fn soul_action_of(a: Seq<char>) -> Option<SoulAction> {
    if a == "soul_break"@ { Some(SoulAction::Break) }
    else if a == "soul_weapon_limit_break"@ { Some(SoulAction::LimitBreak) }
    else if a == "restore_soul_stone"@ || a == "get_soul_stone_mileage_reward"@ || a == "confirm_soul_stone"@ { Some(SoulAction::Restore) }
    else if a == "soul_weapon_liberation"@ { Some(SoulAction::Liberation) }
    else if a == "soul_weapon_upgrade"@ { Some(SoulAction::Upgrade) }
    else if a == "soul_weapon_ether_injection"@ { Some(SoulAction::Injection) }
    else if a == "soul_weapon_reinforce"@ { Some(SoulAction::Reinforce) }
    else if a == "soul_weapon_renew_option"@ { Some(SoulAction::RenewOption) }
    else if a == "soul_weapon_confirm_renew_option"@ { Some(SoulAction::ConfirmRenewOption) }
    else if a == "soul_weapon_transition"@ { Some(SoulAction::Transition) }
    else { None }
}

/// Reads an action name; see `soul_action_of`.
pub fn soul_action(a: &str) -> (r: Option<SoulAction>)
    ensures
        r == soul_action_of(a@),
{
    if str_eq(a, "soul_break") { Some(SoulAction::Break) }
    else if str_eq(a, "soul_weapon_limit_break") { Some(SoulAction::LimitBreak) }
    else if str_eq(a, "restore_soul_stone") || str_eq(a, "get_soul_stone_mileage_reward") || str_eq(a, "confirm_soul_stone") { Some(SoulAction::Restore) }
    else if str_eq(a, "soul_weapon_liberation") { Some(SoulAction::Liberation) }
    else if str_eq(a, "soul_weapon_upgrade") { Some(SoulAction::Upgrade) }
    else if str_eq(a, "soul_weapon_ether_injection") { Some(SoulAction::Injection) }
    else if str_eq(a, "soul_weapon_reinforce") { Some(SoulAction::Reinforce) }
    else if str_eq(a, "soul_weapon_renew_option") { Some(SoulAction::RenewOption) }
    else if str_eq(a, "soul_weapon_confirm_renew_option") { Some(SoulAction::ConfirmRenewOption) }
    else if str_eq(a, "soul_weapon_transition") { Some(SoulAction::Transition) }
    else { None }
}

/// Checks a request on a soul weapon itself (not a break, limit break or restoration):
/// the item must be open to soul weapons (`InvalidEquipItem`); every request but the
/// liberation needs a liberated weapon (`SoulWeaponNotFound`); an unknown request fails
/// (`Fail`).
pub fn soul_weapon_check(open: bool, liberated: bool, action: Option<SoulAction>) -> (r: Result<(), ServerError>)
    ensures
        !open ==> r is Err && is_rule(r->Err_0, "InvalidEquipItem"@),
        open && action == Some(SoulAction::Liberation) ==> r is Ok,
        open && action != Some(SoulAction::Liberation) && !liberated ==> r is Err && is_rule(r->Err_0, "SoulWeaponNotFound"@),
        open && action != Some(SoulAction::Liberation) && liberated && action is None ==> r is Err && is_rule(r->Err_0, "Fail"@),
        open && action != Some(SoulAction::Liberation) && liberated && action is Some ==> r is Ok,
{
    if !open {
        return Err(rule("InvalidEquipItem"));
    }
    let liberation = match action { Some(SoulAction::Liberation) => true, _ => false };
    if liberation {
        return Ok(());
    }
    if !liberated {
        return Err(rule("SoulWeaponNotFound"));
    }
    match action {
        None => Err(rule("Fail")),
        Some(_) => Ok(()),
    }
}

/// The soul weapon a break takes: it must exist and have no renewal waiting
/// (`SoulWeaponNotFound`).
pub fn soul_break_target(w: Option<SoulWeapon>) -> (r: Result<SoulWeapon, ServerError>)
    ensures
        match w {
            Some(x) => if x.pending { r is Err && is_rule(r->Err_0, "SoulWeaponNotFound"@) } else { r == Ok::<SoulWeapon, ServerError>(x) },
            None => r is Err && is_rule(r->Err_0, "SoulWeaponNotFound"@),
        },
{
    match w {
        Some(x) => if x.pending { Err(rule("SoulWeaponNotFound")) } else { Ok(x) },
        None => Err(rule("SoulWeaponNotFound")),
    }
}

/// One reward line of a soul break: an item and its count range.
#[derive(Clone, Copy)]
pub struct SoulBreakReward {
    pub item: i64,
    pub min: i64,
    pub max: i64,
}

/// Draws what a soul break gives: for each reward line in turn a count in its range, kept
/// when positive. Gives the items with their counts.
pub fn soul_break_rewards(lines: &Vec<SoulBreakReward>) -> (r: Vec<(i64, i64)>)
    requires
        forall|k: int| 0 <= k < lines@.len() ==> (#[trigger] lines@[k]).min <= lines@[k].max,
    ensures
        r@.len() <= lines@.len(),
        forall|k: int| 0 <= k < r@.len() ==> (#[trigger] r@[k]).1 > 0
            && exists|j: int| 0 <= j < lines@.len() && lines@[j].item == r@[k].0 && lines@[j].min <= r@[k].1 <= lines@[j].max,
        forall|k: int| 0 <= k < lines@.len() && (#[trigger] lines@[k]).min > 0 ==> exists|j: int| 0 <= j < r@.len() && r@[j].0 == lines@[k].item,
{
    let mut out: Vec<(i64, i64)> = Vec::new();
    let mut k: usize = 0;
    while k < lines.len()
        invariant
            k <= lines@.len(),
            forall|j: int| 0 <= j < lines@.len() ==> (#[trigger] lines@[j]).min <= lines@[j].max,
            out@.len() <= k,
            forall|i: int| 0 <= i < out@.len() ==> (#[trigger] out@[i]).1 > 0
                && exists|j: int| 0 <= j < lines@.len() && lines@[j].item == out@[i].0 && lines@[j].min <= out@[i].1 <= lines@[j].max,
            forall|i: int| 0 <= i < k && (#[trigger] lines@[i]).min > 0 ==> exists|j: int| 0 <= j < out@.len() && out@[j].0 == lines@[i].item,
        decreases lines@.len() - k,
    {
        let l = lines[k];
        let c = crate::dice::random_between(l.min, l.max);
        if c > 0 {
            let ghost before = out@;
            out.push((l.item, c));
            proof {
                assert(out@[out@.len() - 1] == (l.item, c));
                assert forall|i: int| 0 <= i < k + 1 && (#[trigger] lines@[i]).min > 0 implies exists|j: int| 0 <= j < out@.len() && out@[j].0 == lines@[i].item by {
                    if i < k {
                        let j = choose|j: int| 0 <= j < before.len() && before[j].0 == lines@[i].item;
                        assert(out@[j] == before[j]);
                    } else {
                        assert(out@[out@.len() - 1].0 == lines@[i].item);
                    }
                }
            }
        }
        k = k + 1;
    }
    out
}

/// Checks the equipment slots a soul weapon limit break consumes: as many as the step
/// needs, none of them the weapon's own (`InvalidMaterial`).
pub fn limit_break_slots(slot: i64, materials: &Vec<i64>, need: i64) -> (r: Result<(), ServerError>)
    ensures
        materials@.len() != need || materials@.contains(slot) ==> r is Err && is_rule(r->Err_0, "InvalidMaterial"@),
        !(materials@.len() != need || materials@.contains(slot)) ==> r is Ok,
{
    if materials.len() as u64 as i128 != need as i128 {
        return Err(rule("InvalidMaterial"));
    }
    let mut i: usize = 0;
    while i < materials.len()
        invariant
            i <= materials@.len(),
            materials@.len() == need,
            forall|k: int| 0 <= k < i ==> materials@[k] != slot,
        decreases materials@.len() - i,
    {
        if materials[i] == slot {
            proof {
                assert(materials@[i as int] == slot);
            }
            return Err(rule("InvalidMaterial"));
        }
        i = i + 1;
    }
    Ok(())
}

/// Checks that each consumed item is the weapon's own item (`InvalidMaterial`).
pub fn limit_break_items(item: i64, material_items: &Vec<i64>) -> (r: Result<(), ServerError>)
    ensures
        (forall|k: int| 0 <= k < material_items@.len() ==> material_items@[k] == item) ==> r is Ok,
        !(forall|k: int| 0 <= k < material_items@.len() ==> material_items@[k] == item) ==> r is Err && is_rule(r->Err_0, "InvalidMaterial"@),
{
    let mut i: usize = 0;
    while i < material_items.len()
        invariant
            i <= material_items@.len(),
            forall|k: int| 0 <= k < i ==> material_items@[k] == item,
        decreases material_items@.len() - i,
    {
        if material_items[i] != item {
            return Err(rule("InvalidMaterial"));
        }
        i = i + 1;
    }
    Ok(())
}

/// The stones a limit break takes, by increasing item: the soul stones and the
/// transcendence stones, each when its count is positive (the transcendence count standing
/// when both are the same item).
pub open spec fn limit_break_stones_of(stone: i64, stone_count: i64, trans: i64, trans_count: i64) -> Seq<(i64, i64)> {
    if trans_count > 0 && stone_count > 0 && stone != trans {
        if stone < trans { seq![(stone, stone_count), (trans, trans_count)] } else { seq![(trans, trans_count), (stone, stone_count)] }
    } else if trans_count > 0 {
        seq![(trans, trans_count)]
    } else if stone_count > 0 {
        seq![(stone, stone_count)]
    } else {
        Seq::empty()
    }
}

/// Checks the stones a limit break was sent (`sent`, each item once) against those it
/// takes (`InvalidMaterial` unless the same items with the same counts). Gives the stones
/// to consume.
pub fn limit_break_stones(stone: i64, stone_count: i64, trans: i64, trans_count: i64, sent: &Vec<(i64, i64)>) -> (r: Result<Vec<(i64, i64)>, ServerError>)
    requires
        forall|i: int, j: int| 0 <= i < j < sent@.len() ==> sent@[i].0 != sent@[j].0,
    ensures
        ({
            let want = limit_break_stones_of(stone, stone_count, trans, trans_count);
            let same = sent@.len() == want.len() && forall|k: int| 0 <= k < want.len() ==> sent@.contains(#[trigger] want[k]);
            if same { r is Ok && r->Ok_0@ == want } else { r is Err && is_rule(r->Err_0, "InvalidMaterial"@) }
        }),
{
    let mut want: Vec<(i64, i64)> = Vec::new();
    if trans_count > 0 && stone_count > 0 && stone != trans {
        if stone < trans {
            want.push((stone, stone_count));
            want.push((trans, trans_count));
        } else {
            want.push((trans, trans_count));
            want.push((stone, stone_count));
        }
    } else if trans_count > 0 {
        want.push((trans, trans_count));
    } else if stone_count > 0 {
        want.push((stone, stone_count));
    }
    proof {
        assert(want@ =~= limit_break_stones_of(stone, stone_count, trans, trans_count));
    }
    if sent.len() != want.len() {
        return Err(rule("InvalidMaterial"));
    }
    let mut k: usize = 0;
    while k < want.len()
        invariant
            k <= want@.len(),
            want@ == limit_break_stones_of(stone, stone_count, trans, trans_count),
            sent@.len() == want@.len(),
            forall|x: int| 0 <= x < k ==> sent@.contains(#[trigger] want@[x]),
        decreases want@.len() - k,
    {
        let w = want[k];
        let mut found = false;
        let mut i: usize = 0;
        while i < sent.len()
            invariant
                i <= sent@.len(),
                found == exists|j: int| 0 <= j < i && sent@[j] == w,
            decreases sent@.len() - i,
        {
            if sent[i].0 == w.0 && sent[i].1 == w.1 {
                found = true;
            }
            i = i + 1;
        }
        if !found {
            proof {
                assert(!sent@.contains(want@[k as int]));
            }
            return Err(rule("InvalidMaterial"));
        }
        k = k + 1;
    }
    Ok(want)
}

/// The gold a limit break costs: the step's gold for each consumed item.
pub fn limit_break_gold(gold: i64, materials: usize) -> (r: i128)
    requires
        materials <= 100,
    ensures
        r == gold * materials,
{
    proof {
        assert(-0x1_0000_0000_0000_0000_0000 <= gold * materials <= 0x1_0000_0000_0000_0000_0000) by (nonlinear_arith)
            requires i64::MIN <= gold <= i64::MAX, 0 <= materials <= 100;
    }
    (gold as i128) * (materials as i128)
}

} // verus!
