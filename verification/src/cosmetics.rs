//! Hero cosmetics: buying and wearing body, hair and weapon costumes and accessories, and
//! what the player pays for them.
use vstd::prelude::*;
use crate::error::{rule, is_rule, ServerError};

verus! {

/// A body costume: its hero, whether it comes with the hero, whether it is sold, the
/// mileage needed to buy it (sold ones need none), its gold and gem prices, the mileage it
/// gives, and the costumes that come with it.
pub struct BodyCostume {
    pub hero: i64,
    pub is_default: bool,
    pub buyable: bool,
    pub req_mileage: i64,
    pub gold: i64,
    pub gem: i64,
    pub mileage: i64,
    pub bonus: Vec<i64>,
}

/// What a purchase costs and gives: gold and gems to pay, mileage earned.
#[derive(Clone, Copy, PartialEq, Eq, Structural)]
pub struct CostumeBill {
    pub gold: i128,
    pub gem: i128,
    pub mileage: i128,
}

/// Reads the body costume asked for, refused with `InvalidCostume` outside `i32`.
pub fn body_costume_index(asked: i64) -> (r: Result<i32, ServerError>)
    ensures
        i32::MIN <= asked <= i32::MAX ==> r == Ok::<i32, ServerError>(asked as i32),
        !(i32::MIN <= asked <= i32::MAX) ==> r is Err && is_rule(r->Err_0, "InvalidCostume"@),
{
    if asked < i32::MIN as i64 || asked > i32::MAX as i64 {
        return Err(rule("InvalidCostume"));
    }
    Ok(asked as i32)
}

/// The body costumes a purchase adds: the costume and those that come with it.
pub open spec fn new_bodies(id: i32, c: BodyCostume) -> Seq<i64> {
    seq![id as i64] + c.bonus@
}

/// Buys body costume `id` for hero `hero` (none of it for id 0 or less). The costume must
/// exist (`CostumeDataNotFound`) and belong to the hero (`NotCorrectHero`). A costume that
/// comes with the hero or is owned costs nothing; another must be on sale
/// (`NotForSale`), and every costume it adds must exist (`CostumeDataNotFound`; `known`
/// tells of each bonus costume whether it exists). Gives the bill and the costumes added.
pub fn buy_body(hero: i32, id: i32, costume: Option<&BodyCostume>, owned: bool, known: &Vec<bool>) -> (r: Result<(CostumeBill, Vec<i64>), ServerError>)
    ensures
        id <= 0 ==> r is Ok && r->Ok_0.0 == (CostumeBill { gold: 0, gem: 0, mileage: 0 }) && r->Ok_0.1@.len() == 0,
        id > 0 && costume is None ==> r is Err && is_rule(r->Err_0, "CostumeDataNotFound"@),
        id > 0 && costume is Some ==> ({
            let c = *costume->0;
            if c.hero != hero {
                r is Err && is_rule(r->Err_0, "NotCorrectHero"@)
            } else if c.is_default || owned {
                r is Ok && r->Ok_0.0 == (CostumeBill { gold: 0, gem: 0, mileage: 0 }) && r->Ok_0.1@.len() == 0
            } else if !c.buyable || c.req_mileage != 0 {
                r is Err && is_rule(r->Err_0, "NotForSale"@)
            } else if known@.len() != c.bonus@.len() || exists|i: int| 0 <= i < known@.len() && !#[trigger] known@[i] {
                r is Err && is_rule(r->Err_0, "CostumeDataNotFound"@)
            } else {
                r is Ok && r->Ok_0.0 == (CostumeBill { gold: c.gold as i128, gem: c.gem as i128, mileage: c.mileage as i128 })
                    && r->Ok_0.1@ == new_bodies(id, c)
            }
        }),
{
    let none = CostumeBill { gold: 0, gem: 0, mileage: 0 };
    if id <= 0 {
        return Ok((none, Vec::new()));
    }
    let c = match costume {
        None => { return Err(rule("CostumeDataNotFound")); },
        Some(c) => c,
    };
    if c.hero != hero as i64 {
        return Err(rule("NotCorrectHero"));
    }
    if c.is_default || owned {
        return Ok((none, Vec::new()));
    }
    if !c.buyable || c.req_mileage != 0 {
        return Err(rule("NotForSale"));
    }
    if known.len() != c.bonus.len() {
        return Err(rule("CostumeDataNotFound"));
    }
    let mut added: Vec<i64> = Vec::new();
    added.push(id as i64);
    let mut i: usize = 0;
    while i < c.bonus.len()
        invariant
            id > 0,
            costume == Some(c),
            c.hero == hero as i64,
            !c.is_default && !owned,
            c.buyable && c.req_mileage == 0,
            known@.len() == c.bonus@.len(),
            i <= c.bonus@.len(),
            forall|k: int| 0 <= k < i ==> #[trigger] known@[k],
            added@ == seq![id as i64] + c.bonus@.take(i as int),
        decreases c.bonus@.len() - i,
    {
        if !known[i] {
            proof {
                assert(!known@[i as int]);
            }
            return Err(rule("CostumeDataNotFound"));
        }
        added.push(c.bonus[i]);
        proof {
            assert(c.bonus@.take(i + 1) =~= c.bonus@.take(i as int).push(c.bonus@[i as int]));
        }
        i = i + 1;
    }
    proof {
        assert(c.bonus@.take(c.bonus@.len() as int) =~= c.bonus@);
    }
    Ok((CostumeBill { gold: c.gold as i128, gem: c.gem as i128, mileage: c.mileage as i128 }, added))
}

/// Checks the unique-weapon flag (`InvalidCostume` unless 0 or 1).
pub fn hide_weapon_check(hide: i64) -> (r: Result<(), ServerError>)
    ensures
        0 <= hide <= 1 ==> r is Ok,
        !(0 <= hide <= 1) ==> r is Err && is_rule(r->Err_0, "InvalidCostume"@),
{
    if hide < 0 || hide > 1 {
        return Err(rule("InvalidCostume"));
    }
    Ok(())
}

/// A hair or weapon costume: its hero, the star the hero needs, whether it comes with the
/// hero, whether it is on sale, its gem price and the mileage it gives.
pub struct PartCostume {
    pub hero: i64,
    pub star: i64,
    pub is_default: bool,
    pub open: bool,
    pub gem: i64,
    pub mileage: i64,
}

/// The bill of a hair or weapon costume, or why it is refused (see `part_costume`).
pub open spec fn part_bill(hero: i32, star: i64, id: i64, data: Option<PartCostume>, owned: bool, body_owned: Seq<bool>) -> Result<CostumeBill, Seq<char>> {
    if id < 0 {
        Err("InvalidCostume"@)
    } else if id == 0 {
        Ok(CostumeBill { gold: 0, gem: 0, mileage: 0 })
    } else {
        match data {
            None => Err("ItemDataNotFound"@),
            Some(d) => if d.hero != hero || d.star > star {
                Err("NotCorrectHero"@)
            } else if owned {
                Ok(CostumeBill { gold: 0, gem: 0, mileage: 0 })
            } else {
                let unlocked = d.is_default || exists|i: int| 0 <= i < body_owned.len() && #[trigger] body_owned[i];
                if unlocked {
                    Ok(CostumeBill { gold: 0, gem: 0, mileage: 0 })
                } else if !d.open || d.gem <= 0 {
                    Err("CostumeNotOwned"@)
                } else {
                    Ok(CostumeBill { gold: 0, gem: d.gem as i128, mileage: d.mileage as i128 })
                }
            },
        }
    }
}

/// Checks a hair or weapon costume `id` for a hero with star `star` (0 takes the costume
/// off). A negative id is refused (`InvalidCostume`), the costume must exist
/// (`ItemDataNotFound`), belong to the hero and not need a higher star
/// (`NotCorrectHero`). One not owned yet comes free with the hero or with one of the body
/// costumes it needs (`body_owned` tells of each whether the player has it); otherwise it
/// must be on sale for gems (`CostumeNotOwned`).
pub fn part_costume(hero: i32, star: i64, id: i64, data: Option<&PartCostume>, owned: bool, body_owned: &Vec<bool>) -> (r: Result<CostumeBill, ServerError>)
    ensures
        match part_bill(hero, star, id, match data { Some(d) => Some(*d), None => None }, owned, body_owned@) {
            Ok(b) => r == Ok::<CostumeBill, ServerError>(b),
            Err(e) => r is Err && is_rule(r->Err_0, e),
        },
{
    let none = CostumeBill { gold: 0, gem: 0, mileage: 0 };
    if id < 0 {
        return Err(rule("InvalidCostume"));
    }
    if id == 0 {
        return Ok(none);
    }
    let d = match data {
        None => { return Err(rule("ItemDataNotFound")); },
        Some(d) => d,
    };
    if d.hero != hero as i64 || d.star > star {
        return Err(rule("NotCorrectHero"));
    }
    if owned {
        return Ok(none);
    }
    let mut unlocked = d.is_default;
    let mut i: usize = 0;
    while i < body_owned.len()
        invariant
            i <= body_owned@.len(),
            unlocked == (d.is_default || exists|k: int| 0 <= k < i && #[trigger] body_owned@[k]),
        decreases body_owned@.len() - i,
    {
        if body_owned[i] {
            unlocked = true;
        }
        i = i + 1;
    }
    if unlocked {
        return Ok(none);
    }
    if !d.open || d.gem <= 0 {
        return Err(rule("CostumeNotOwned"));
    }
    Ok(CostumeBill { gold: 0, gem: d.gem as i128, mileage: d.mileage as i128 })
}

/// Takes off the accessories named in `unset`: each of the six accessory places holding
/// one of them becomes empty.
pub fn unset_accessories(places: &mut Vec<i64>, unset: &Vec<i64>)
    ensures
        final(places)@.len() == old(places)@.len(),
        forall|k: int| 0 <= k < old(places)@.len() ==> #[trigger] final(places)@[k] == if unset@.contains(old(places)@[k]) { 0 } else { old(places)@[k] },
{
    let mut k: usize = 0;
    while k < places.len()
        invariant
            k <= places@.len(),
            places@.len() == old(places)@.len(),
            forall|j: int| 0 <= j < k ==> #[trigger] places@[j] == if unset@.contains(old(places)@[j]) { 0 } else { old(places)@[j] },
            forall|j: int| k <= j < places@.len() ==> #[trigger] places@[j] == old(places)@[j],
        decreases places@.len() - k,
    {
        let v = places[k];
        let mut hit = false;
        let mut i: usize = 0;
        while i < unset.len()
            invariant
                i <= unset@.len(),
                hit == exists|x: int| 0 <= x < i && unset@[x] == v,
            decreases unset@.len() - i,
        {
            if unset[i] == v {
                hit = true;
            }
            i = i + 1;
        }
        if hit {
            places.set(k, 0);
        }
        k = k + 1;
    }
}

/// An accessory: the place it takes, whether the hero may not wear it, whether it is on
/// sale and may be bought, its gem price and the mileage it gives.
pub struct Accessory {
    pub part: i64,
    pub unable: bool,
    pub open: bool,
    pub buyable: bool,
    pub gem: i64,
    pub mileage: i64,
}

/// Checks one accessory put on: its place must be one of the six and not taken by an
/// earlier accessory of the request (`parts` holds those places), and the hero must be
/// allowed to wear it (`InvalidCostume`). One not owned must be bought in this request and
/// be on sale (`CostumeNotOwned`). Records the place; gives the bill.
pub fn accessory_check(parts: &mut Vec<i64>, a: &Accessory, owned: bool, buying: bool) -> (r: Result<CostumeBill, ServerError>)
    ensures
        !(1 <= a.part <= 6) || old(parts)@.contains(a.part) || a.unable ==> r is Err && is_rule(r->Err_0, "InvalidCostume"@),
        !(!(1 <= a.part <= 6) || old(parts)@.contains(a.part) || a.unable) ==> {
            &&& final(parts)@ == old(parts)@.push(a.part)
            &&& if owned {
                r == Ok::<CostumeBill, ServerError>(CostumeBill { gold: 0, gem: 0, mileage: 0 })
            } else if !buying || !a.open || !a.buyable {
                r is Err && is_rule(r->Err_0, "CostumeNotOwned"@)
            } else {
                r == Ok::<CostumeBill, ServerError>(CostumeBill { gold: 0, gem: a.gem as i128, mileage: a.mileage as i128 })
            }
        },
{
    if a.part < 1 || a.part > 6 || a.unable {
        return Err(rule("InvalidCostume"));
    }
    let mut i: usize = 0;
    while i < parts.len()
        invariant
            i <= parts@.len(),
            parts@ == old(parts)@,
            forall|k: int| 0 <= k < i ==> parts@[k] != a.part,
        decreases parts@.len() - i,
    {
        if parts[i] == a.part {
            proof {
                assert(old(parts)@[i as int] == a.part);
            }
            return Err(rule("InvalidCostume"));
        }
        i = i + 1;
    }
    parts.push(a.part);
    if owned {
        return Ok(CostumeBill { gold: 0, gem: 0, mileage: 0 });
    }
    if !buying || !a.open || !a.buyable {
        return Err(rule("CostumeNotOwned"));
    }
    Ok(CostumeBill { gold: 0, gem: a.gem as i128, mileage: a.mileage as i128 })
}

/// The sum of two bills.
pub open spec fn bill_sum(a: CostumeBill, b: CostumeBill) -> CostumeBill {
    CostumeBill { gold: (a.gold + b.gold) as i128, gem: (a.gem + b.gem) as i128, mileage: (a.mileage + b.mileage) as i128 }
}

/// Adds two bills of the few costumes of one request.
pub fn add_bill(a: CostumeBill, b: CostumeBill) -> (r: CostumeBill)
    requires
        -0x1_0000_0000_0000_0000_0000 <= a.gold <= 0x1_0000_0000_0000_0000_0000,
        -0x1_0000_0000_0000_0000_0000 <= a.gem <= 0x1_0000_0000_0000_0000_0000,
        -0x1_0000_0000_0000_0000_0000 <= a.mileage <= 0x1_0000_0000_0000_0000_0000,
        -0x1_0000_0000_0000_0000_0000 <= b.gold <= 0x1_0000_0000_0000_0000_0000,
        -0x1_0000_0000_0000_0000_0000 <= b.gem <= 0x1_0000_0000_0000_0000_0000,
        -0x1_0000_0000_0000_0000_0000 <= b.mileage <= 0x1_0000_0000_0000_0000_0000,
    ensures
        r == bill_sum(a, b),
{
    CostumeBill { gold: a.gold + b.gold, gem: a.gem + b.gem, mileage: a.mileage + b.mileage }
}

/// Checks the price the player agreed to for a purchase: the gold and gems asked must be
/// the bill's (`InvalidPrice`).
pub fn costume_price_check(buy_gold: i64, buy_gem: i64, bill: CostumeBill) -> (r: Result<(), ServerError>)
    ensures
        buy_gold == bill.gold && buy_gem == bill.gem ==> r is Ok,
        !(buy_gold == bill.gold && buy_gem == bill.gem) ==> r is Err && is_rule(r->Err_0, "InvalidPrice"@),
{
    if buy_gold as i128 != bill.gold || buy_gem as i128 != bill.gem {
        return Err(rule("InvalidPrice"));
    }
    Ok(())
}

} // verus!
