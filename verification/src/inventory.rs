//! Inventory rules: counts, result codes, wallets, capacity and item effects.
use vstd::prelude::*;
use crate::error::{rule, is_rule, ServerError};
use crate::forms::Request;
use crate::text::str_eq;
use crate::dice::{pick_by_weight, random_below, weighted_index};

verus! {

/// A count of 1 to 1000 from field `key` (1 when absent), as `i32`.
pub fn positive(req: &Request, key: &str) -> (r: Result<i32, ServerError>)
    ensures
        match req.number_of(key@, 1) {
            Some(v) => if 1 <= v <= 1000 {
                r == Ok::<i32, ServerError>(v as i32)
            } else {
                r is Err && is_rule(r->Err_0, "InvalidItemCount"@)
            },
            None => r is Err && is_rule(r->Err_0, "InvalidValue"@),
        },
{
    let value = req.number(key, 1)?;
    if value < 1 || value > 1000 {
        return Err(rule("InvalidItemCount"));
    }
    Ok(value as i32)
}

/// An item index from field `key` (0 when absent), refused when it does not fit in `i32`.
pub fn item_index(req: &Request, key: &str) -> (r: Result<i32, ServerError>)
    ensures
        match req.number_of(key@, 0) {
            Some(v) => if i32::MIN <= v <= i32::MAX {
                r == Ok::<i32, ServerError>(v as i32)
            } else {
                r is Err && is_rule(r->Err_0, "ItemDataNotFound"@)
            },
            None => r is Err && is_rule(r->Err_0, "InvalidValue"@),
        },
{
    let value = req.number(key, 0)?;
    if value < i32::MIN as i64 || value > i32::MAX as i64 {
        return Err(rule("ItemDataNotFound"));
    }
    Ok(value as i32)
}

/// The rule code reported for `code` by endpoint `action`, before the endpoint's own list
/// is consulted.
pub open spec fn renamed_code(action: Seq<char>, code: Seq<char>) -> Seq<char> {
    if action == "set_chest"@ && code == "Equipped"@ {
        "AlreadyOtherHeroEquipped"@
    } else if action == "set_chest"@ && code == "EquipItemFull"@ {
        "ChestFull"@
    } else if action == "unset_chest"@ && code == "EquipItemFull"@ {
        "InventoryFull"@
    } else if action == "unset_chest"@ && code == "EquipNotOwned"@ {
        "EquipItemNotFound"@
    } else {
        code
    }
}

/// The result names the client's enum for endpoint `action` holds.
pub open spec fn native_codes(action: Seq<char>) -> Seq<Seq<char>> {
    if action == "break_rune"@ {
        seq!["Fail"@, "Success"@, "ItemNotOwned"@, "InvalidItemCount"@, "Equipped"@, "EquipNotOwned"@, "NotBreakableItemExists"@, "LockedItemExists"@, "LockedEquipItemExists"@, "ItemDataNotFound"@, "InvalidItemType"@]
    } else if action == "use_equip_option_select_item"@ {
        seq!["Fail"@, "Success"@, "ItemNotOwned"@, "ItemDataNotFound"@, "ItemTypeMismatch"@, "WeaponUniqueSelectDataNotFound"@, "WeaponUniqueNotSelectable"@, "EquipItemDataNotFound"@, "EquipItemFull"@, "NoAvailableOption"@, "NotCorrectOptionCount"@, "ItemCountError"@]
    } else if action == "use_booster_item"@ {
        seq!["Fail"@, "Success"@, "ItemNotOwned"@, "ItemDataNotFound"@, "ItemTypeMismatch"@, "SameBoosterApplied"@, "BoosterDataNotFound"@]
    } else if action == "use_potion_item"@ {
        seq!["Fail"@, "Success"@, "ItemNotOwned"@, "ItemDataNotFound"@, "ItemTypeMismatch"@, "PotionDataNotFound"@, "CreatureDataNotFound"@, "InvalidAction"@, "InvalidItemCount"@, "InvalidHeroIndex"@, "InvalidHeroExp"@, "MaxHeroTranscendPoint"@, "InvalidHeroTranscendPoint"@, "HeroNotOwned"@, "MaxHeroLevel"@, "InvalidActionValue"@, "InvalidStaminaType"@, "ItemExpired"@, "InvalidChapterIndex"@, "PlayerDungeonNotFound"@, "NotFoundChapterData"@, "IsNotOpenDungeon"@, "NotAvailableRecharge"@, "NotHeroTanscended"@]
    } else if action == "use_package_item"@ {
        seq!["Fail"@, "Success"@, "ItemNotOwned"@, "InvalidItemCount"@, "ItemDataNotFound"@, "ItemTypeMismatch"@, "PackageDataNotFound"@, "EquipItemFull"@]
    } else if action == "use_package_select_item"@ {
        seq!["Fail"@, "Success"@, "ItemNotOwned"@, "InvalidItemCount"@, "ItemDataNotFound"@, "ItemTypeMismatch"@, "SelectItemDataNotFound"@, "ImpossibleSelectItem"@, "EquipItemFull"@]
    } else if action == "use_weapon_unique_select_item"@ {
        seq!["Fail"@, "Success"@, "ItemNotOwned"@, "ItemDataNotFound"@, "WeaponUniqueSelectDataNotFound"@, "WeaponUniqueNotSelectable"@, "ItemTypeMismatch"@, "EquipItemDataNotFound"@, "EquipItemFull"@, "ItemCountError"@, "WeaponUniqueSelectDataValueError"@]
    } else if action == "use_hero_select_item"@ {
        seq!["Fail"@, "Success"@, "ItemNotOwned"@, "ItemDataNotFound"@, "ItemTypeMismatch"@, "HeroSelectDataNotFound"@, "HeroNotSelectable"@, "HeroFragmentDataError"@, "HeroDataNotFound"@, "AwakeChallengeDataError"@, "AwakeItemDataError"@, "CreatureStarDataNotFound"@, "AllHeroNotOwned"@]
    } else if action == "sell_item"@ {
        seq!["Fail"@, "Success"@, "NoItemData"@, "NoSellCount"@, "NotOwned"@, "InvalidItemCount"@, "LockedItemExists"@, "NotForSale"@]
    } else if action == "break_item"@ {
        seq!["Fail"@, "Success"@, "ItemNotOwned"@, "InvalidItemCount"@, "Equipped"@, "NotBreakableItemExists"@, "LockedItemExists"@, "ItemDataNotFound"@, "ItemBreakDataNotFound"@, "InvalidItemType"@]
    } else if action == "set_lock_rune_item"@ {
        seq!["Fail"@, "Success"@, "ItemNotOwned"@, "ItemDataNotFound"@, "InvalidItemType"@, "AlreadyLocked"@, "AlreadyUnLocked"@]
    } else if action == "sell_equip"@ {
        seq!["Fail"@, "Success"@, "EquipNotOwned"@, "EquipDataNotFound"@, "Equipped"@, "NotForSale"@, "LockedEquipItemExists"@]
    } else if action == "set_lock_equip_item"@ {
        seq!["Fail"@, "Success"@, "EquipNotOwned"@, "ItemDataNotFound"@, "EquipItemDataNotFound"@, "AlreadyLocked"@, "AlreadyUnLocked"@]
    } else if action == "set_chest"@ {
        seq!["Fail"@, "Success"@, "EquipNotOwned"@, "AlreadyOtherHeroEquipped"@, "ItemDataNotFound"@, "EquipItemDataNotFound"@, "LockedPartIndex"@, "EquipPartError"@, "UnequipOldFailed"@, "EquipSlotDataNotFound"@, "NotMatchSubType"@, "ChestFull"@]
    } else if action == "unset_chest"@ {
        seq!["Fail"@, "Success"@, "EquipItemNotFound"@, "RemoveFailed"@, "InventoryFull"@]
    } else if action == "extend_equip"@ {
        seq!["Fail"@, "Success"@, "ReqGemError"@, "NotEnoughGem"@]
    } else if action == "extend_chest"@ {
        seq!["Fail"@, "Success"@, "ReqGemError"@, "NotEnoughGem"@, "MaxChest"@]
    } else if action == "craft_item"@ {
        seq!["Fail"@, "Success"@, "WrongSlotIndex"@, "NotSelectableSlotIndex"@, "ItemNotOwned"@, "ItemDataNotFound"@, "InvalidItemCount"@, "CraftDataNotFound"@, "NotEnoughMaterial"@, "NotEnoughGold"@, "CraftDataNotOpened"@]
    } else if action == "add_craft_slot"@ {
        seq!["Fail"@, "Success"@, "WrongSlotIndex"@, "NotSelectableSlotIndex"@, "CraftSlotPriceDataNotFound"@, "NotEnoughGold"@]
    } else if action == "take_craft_item"@ {
        seq!["Fail"@, "Success"@, "WrongSlotIndex"@, "NotSelectableSlotIndex"@, "NotCraftSlotIndex"@, "ItemDataNotFound"@, "CraftDataNotFound"@, "NotYetCrafted"@]
    } else if action == "cancel_craft_item"@ {
        seq!["Fail"@, "Success"@, "WrongSlotIndex"@, "NotSelectableSlotIndex"@, "NotCraftSlotIndex"@, "AlreadyCompletedCraftItem"@, "ItemDataNotFound"@, "CraftDataNotFound"@, "NotEnoughMaterial"@, "NotEnoughGold"@]
    } else if action == "instant_craft_item"@ {
        seq!["Fail"@, "Success"@, "WrongSlotIndex"@, "NotSelectableSlotIndex"@, "NotCraftSlotIndex"@, "AlreadyCompletedCraftItem"@, "ItemDataNotFound"@, "CraftDataNotFound"@, "NotEnoughGem"@, "WrongRemainTime"@]
    } else {
        seq!["Fail"@]
    }
}

/// The result name sent for rule code `code` at endpoint `action`: the (renamed) code when
/// the endpoint's enum holds it, and `Fail` otherwise.
pub open spec fn native_result_of(action: Seq<char>, code: Seq<char>) -> Seq<char> {
    let c = renamed_code(action, code);
    if native_codes(action).contains(c) {
        c
    } else {
        "Fail"@
    }
}

fn native_codes_for(action: &str) -> (r: Vec<&'static str>)
    ensures
        r@.map_values(|s: &str| s@) == native_codes(action@),
{
    let v =     if str_eq(action, "break_rune") {
        vec!["Fail", "Success", "ItemNotOwned", "InvalidItemCount", "Equipped", "EquipNotOwned", "NotBreakableItemExists", "LockedItemExists", "LockedEquipItemExists", "ItemDataNotFound", "InvalidItemType"]
    } else if str_eq(action, "use_equip_option_select_item") {
        vec!["Fail", "Success", "ItemNotOwned", "ItemDataNotFound", "ItemTypeMismatch", "WeaponUniqueSelectDataNotFound", "WeaponUniqueNotSelectable", "EquipItemDataNotFound", "EquipItemFull", "NoAvailableOption", "NotCorrectOptionCount", "ItemCountError"]
    } else if str_eq(action, "use_booster_item") {
        vec!["Fail", "Success", "ItemNotOwned", "ItemDataNotFound", "ItemTypeMismatch", "SameBoosterApplied", "BoosterDataNotFound"]
    } else if str_eq(action, "use_potion_item") {
        vec!["Fail", "Success", "ItemNotOwned", "ItemDataNotFound", "ItemTypeMismatch", "PotionDataNotFound", "CreatureDataNotFound", "InvalidAction", "InvalidItemCount", "InvalidHeroIndex", "InvalidHeroExp", "MaxHeroTranscendPoint", "InvalidHeroTranscendPoint", "HeroNotOwned", "MaxHeroLevel", "InvalidActionValue", "InvalidStaminaType", "ItemExpired", "InvalidChapterIndex", "PlayerDungeonNotFound", "NotFoundChapterData", "IsNotOpenDungeon", "NotAvailableRecharge", "NotHeroTanscended"]
    } else if str_eq(action, "use_package_item") {
        vec!["Fail", "Success", "ItemNotOwned", "InvalidItemCount", "ItemDataNotFound", "ItemTypeMismatch", "PackageDataNotFound", "EquipItemFull"]
    } else if str_eq(action, "use_package_select_item") {
        vec!["Fail", "Success", "ItemNotOwned", "InvalidItemCount", "ItemDataNotFound", "ItemTypeMismatch", "SelectItemDataNotFound", "ImpossibleSelectItem", "EquipItemFull"]
    } else if str_eq(action, "use_weapon_unique_select_item") {
        vec!["Fail", "Success", "ItemNotOwned", "ItemDataNotFound", "WeaponUniqueSelectDataNotFound", "WeaponUniqueNotSelectable", "ItemTypeMismatch", "EquipItemDataNotFound", "EquipItemFull", "ItemCountError", "WeaponUniqueSelectDataValueError"]
    } else if str_eq(action, "use_hero_select_item") {
        vec!["Fail", "Success", "ItemNotOwned", "ItemDataNotFound", "ItemTypeMismatch", "HeroSelectDataNotFound", "HeroNotSelectable", "HeroFragmentDataError", "HeroDataNotFound", "AwakeChallengeDataError", "AwakeItemDataError", "CreatureStarDataNotFound", "AllHeroNotOwned"]
    } else if str_eq(action, "sell_item") {
        vec!["Fail", "Success", "NoItemData", "NoSellCount", "NotOwned", "InvalidItemCount", "LockedItemExists", "NotForSale"]
    } else if str_eq(action, "break_item") {
        vec!["Fail", "Success", "ItemNotOwned", "InvalidItemCount", "Equipped", "NotBreakableItemExists", "LockedItemExists", "ItemDataNotFound", "ItemBreakDataNotFound", "InvalidItemType"]
    } else if str_eq(action, "set_lock_rune_item") {
        vec!["Fail", "Success", "ItemNotOwned", "ItemDataNotFound", "InvalidItemType", "AlreadyLocked", "AlreadyUnLocked"]
    } else if str_eq(action, "sell_equip") {
        vec!["Fail", "Success", "EquipNotOwned", "EquipDataNotFound", "Equipped", "NotForSale", "LockedEquipItemExists"]
    } else if str_eq(action, "set_lock_equip_item") {
        vec!["Fail", "Success", "EquipNotOwned", "ItemDataNotFound", "EquipItemDataNotFound", "AlreadyLocked", "AlreadyUnLocked"]
    } else if str_eq(action, "set_chest") {
        vec!["Fail", "Success", "EquipNotOwned", "AlreadyOtherHeroEquipped", "ItemDataNotFound", "EquipItemDataNotFound", "LockedPartIndex", "EquipPartError", "UnequipOldFailed", "EquipSlotDataNotFound", "NotMatchSubType", "ChestFull"]
    } else if str_eq(action, "unset_chest") {
        vec!["Fail", "Success", "EquipItemNotFound", "RemoveFailed", "InventoryFull"]
    } else if str_eq(action, "extend_equip") {
        vec!["Fail", "Success", "ReqGemError", "NotEnoughGem"]
    } else if str_eq(action, "extend_chest") {
        vec!["Fail", "Success", "ReqGemError", "NotEnoughGem", "MaxChest"]
    } else if str_eq(action, "craft_item") {
        vec!["Fail", "Success", "WrongSlotIndex", "NotSelectableSlotIndex", "ItemNotOwned", "ItemDataNotFound", "InvalidItemCount", "CraftDataNotFound", "NotEnoughMaterial", "NotEnoughGold", "CraftDataNotOpened"]
    } else if str_eq(action, "add_craft_slot") {
        vec!["Fail", "Success", "WrongSlotIndex", "NotSelectableSlotIndex", "CraftSlotPriceDataNotFound", "NotEnoughGold"]
    } else if str_eq(action, "take_craft_item") {
        vec!["Fail", "Success", "WrongSlotIndex", "NotSelectableSlotIndex", "NotCraftSlotIndex", "ItemDataNotFound", "CraftDataNotFound", "NotYetCrafted"]
    } else if str_eq(action, "cancel_craft_item") {
        vec!["Fail", "Success", "WrongSlotIndex", "NotSelectableSlotIndex", "NotCraftSlotIndex", "AlreadyCompletedCraftItem", "ItemDataNotFound", "CraftDataNotFound", "NotEnoughMaterial", "NotEnoughGold"]
    } else if str_eq(action, "instant_craft_item") {
        vec!["Fail", "Success", "WrongSlotIndex", "NotSelectableSlotIndex", "NotCraftSlotIndex", "AlreadyCompletedCraftItem", "ItemDataNotFound", "CraftDataNotFound", "NotEnoughGem", "WrongRemainTime"]
    } else {
        vec!["Fail"]
    };
    proof {
        assert(v@.map_values(|s: &str| s@) =~= native_codes(action@));
    }
    v
}

/// Only result names present in the native endpoint enum are sent back.
pub fn native_result(action: &str, code: &str) -> (r: String)
    ensures
        r@ == native_result_of(action@, code@),
{
    let c: &str = if str_eq(action, "set_chest") && str_eq(code, "Equipped") {
        "AlreadyOtherHeroEquipped"
    } else if str_eq(action, "set_chest") && str_eq(code, "EquipItemFull") {
        "ChestFull"
    } else if str_eq(action, "unset_chest") && str_eq(code, "EquipItemFull") {
        "InventoryFull"
    } else if str_eq(action, "unset_chest") && str_eq(code, "EquipNotOwned") {
        "EquipItemNotFound"
    } else {
        code
    };
    let allowed = native_codes_for(action);
    let ghost views = allowed@.map_values(|s: &str| s@);
    let mut i: usize = 0;
    while i < allowed.len()
        invariant
            i <= allowed@.len(),
            views == allowed@.map_values(|s: &str| s@),
            views == native_codes(action@),
            c@ == renamed_code(action@, code@),
            forall|k: int| 0 <= k < i ==> views[k] != c@,
        decreases allowed@.len() - i,
    {
        if str_eq(allowed[i], c) {
            proof {
                assert(views[i as int] == c@);
                assert(views.contains(c@));
            }
            return String::from_str(c);
        }
        i = i + 1;
    }
    proof {
        assert(!views.contains(c@));
    }
    String::from_str("Fail")
}

/// One inventory-expansion tier: after `extend_count` expansions of inventory
/// `inventory_type`, each expansion adds `extend_size` slots and costs `extend_price` gems.
pub struct InventoryExtension {
    pub inventory_type: i64,
    pub extend_count: i64,
    pub extend_size: i64,
    pub extend_price: i64,
}

/// The first tier of inventory `inv` whose expansion count exceeds `extend`.
pub open spec fn first_tier_above(exts: Seq<InventoryExtension>, inv: int, extend: int) -> Option<InventoryExtension>
    decreases exts.len(),
{
    if exts.len() == 0 {
        None
    } else {
        match first_tier_above(exts.drop_last(), inv, extend) {
            Some(e) => Some(e),
            None => {
                let e = exts.last();
                if e.inventory_type == inv && e.extend_count > extend { Some(e) } else { None }
            },
        }
    }
}

/// The last tier of inventory `inv`.
pub open spec fn last_tier(exts: Seq<InventoryExtension>, inv: int) -> Option<InventoryExtension>
    decreases exts.len(),
{
    if exts.len() == 0 {
        None
    } else if exts.last().inventory_type == inv {
        Some(exts.last())
    } else {
        last_tier(exts.drop_last(), inv)
    }
}

/// Slots gained per expansion of inventory `inv` after `extend` expansions (8 when the
/// table has no row for it).
pub open spec fn slots_per_extension(exts: Seq<InventoryExtension>, inv: int, extend: int) -> int {
    match first_tier_above(exts, inv, extend) {
        Some(e) => e.extend_size as int,
        None => match last_tier(exts, inv) {
            Some(e) => e.extend_size as int,
            None => 8,
        },
    }
}

/// The number of equipment items inventory `inv` may hold.
pub open spec fn equipment_limit(exts: Seq<InventoryExtension>, inv: int, extend: int, base: int) -> int {
    base + extend * slots_per_extension(exts, inv, extend)
}

fn slots_per_extension_of(exts: &Vec<InventoryExtension>, inv: i64, extend: i64) -> (r: i64)
    ensures
        r == slots_per_extension(exts@, inv as int, extend as int),
{
    let mut i: usize = 0;
    let mut found: Option<i64> = None;
    let mut last: Option<i64> = None;
    while i < exts.len()
        invariant
            i <= exts@.len(),
            found == (match first_tier_above(exts@.take(i as int), inv as int, extend as int) {
                Some(e) => Some(e.extend_size),
                None => None::<i64>,
            }),
            last == (match last_tier(exts@.take(i as int), inv as int) {
                Some(e) => Some(e.extend_size),
                None => None::<i64>,
            }),
        decreases exts@.len() - i,
    {
        proof {
            assert(exts@.take(i + 1).drop_last() =~= exts@.take(i as int));
        }
        let e = &exts[i];
        if found.is_none() && e.inventory_type == inv && e.extend_count > extend {
            found = Some(e.extend_size);
        }
        if e.inventory_type == inv {
            last = Some(e.extend_size);
        }
        i = i + 1;
    }
    proof {
        assert(exts@.take(exts@.len() as int) =~= exts@);
    }
    match found {
        Some(v) => v,
        None => match last {
            Some(v) => v,
            None => 8,
        },
    }
}

/// Refuses with `EquipItemFull` when adding `extra` equipment items to the `count` already
/// held would exceed the limit of inventory `inventory`.
pub fn capacity(
    exts: &Vec<InventoryExtension>,
    inventory: i32,
    extend: i64,
    base: i64,
    count: i64,
    extra: i64,
) -> (r: Result<(), ServerError>)
    ensures
        count + extra > equipment_limit(exts@, inventory as int, extend as int, base as int)
            ==> r is Err && is_rule(r->Err_0, "EquipItemFull"@),
        count + extra <= equipment_limit(exts@, inventory as int, extend as int, base as int)
            ==> r is Ok,
{
    let size = slots_per_extension_of(exts, inventory as i64, extend);
    proof {
        let a = extend as int;
        let b = size as int;
        assert(-0x4000_0000_0000_0000_0000_0000_0000_0000 <= a * b
            <= 0x4000_0000_0000_0000_0000_0000_0000_0000) by (nonlinear_arith)
            requires
                -0x8000_0000_0000_0000 <= a <= 0x8000_0000_0000_0000,
                -0x8000_0000_0000_0000 <= b <= 0x8000_0000_0000_0000;
    }
    let grown: i128 = (extend as i128) * (size as i128);
    if (count as i128) + (extra as i128) > (base as i128) + grown {
        return Err(rule("EquipItemFull"));
    }
    Ok(())
}

/// The cheapest next tier of inventory `inv` after `count` expansions: among tiers whose
/// expansion count exceeds `count`, the first with the smallest expansion count.
pub open spec fn next_tier(exts: Seq<InventoryExtension>, inv: int, count: int) -> Option<InventoryExtension>
    decreases exts.len(),
{
    if exts.len() == 0 {
        None
    } else {
        let prev = next_tier(exts.drop_last(), inv, count);
        let e = exts.last();
        if !(e.inventory_type == inv && e.extend_count > count) {
            prev
        } else {
            match prev {
                None => Some(e),
                Some(p) => if e.extend_count < p.extend_count { Some(e) } else { prev },
            }
        }
    }
}

/// The gem price of the next expansion of the equipment inventory (`chest` false) or the
/// chest (`chest` true), checked against the price the client sent.
pub fn expand_price(exts: &Vec<InventoryExtension>, chest: bool, count: i64, req_gem: i64) -> (r: Result<i64, ServerError>)
    ensures
        match next_tier(exts@, if chest { 1 } else { 0 }, count as int) {
            Some(t) => if req_gem == t.extend_price {
                r == Ok::<i64, ServerError>(t.extend_price)
            } else {
                r is Err && is_rule(r->Err_0, "ReqGemError"@)
            },
            None => r is Err && is_rule(r->Err_0, "ReqGemError"@),
        },
{
    let inv: i64 = if chest { 1 } else { 0 };
    let mut best: Option<usize> = None;
    let mut i: usize = 0;
    while i < exts.len()
        invariant
            i <= exts@.len(),
            match next_tier(exts@.take(i as int), inv as int, count as int) {
                Some(t) => best is Some && best->0 < i && exts@[best->0 as int] == t,
                None => best is None,
            },
        decreases exts@.len() - i,
    {
        proof {
            assert(exts@.take(i + 1).drop_last() =~= exts@.take(i as int));
            assert(exts@.take(i + 1).last() == exts@[i as int]);
        }
        let e = &exts[i];
        if e.inventory_type == inv && e.extend_count > count {
            match best {
                None => { best = Some(i); },
                Some(b) => {
                    if e.extend_count < exts[b].extend_count {
                        best = Some(i);
                    }
                },
            }
        }
        i = i + 1;
    }
    proof {
        assert(exts@.take(exts@.len() as int) =~= exts@);
    }
    match best {
        None => Err(rule("ReqGemError")),
        Some(b) => {
            let price = exts[b].extend_price;
            if req_gem != price {
                Err(rule("ReqGemError"))
            } else {
                Ok(price)
            }
        },
    }
}

/// Takes `count` of an item held `held` times: refused with `InvalidItemCount` for a
/// non-positive count and with `ItemNotOwned` when too few are held or the stack is locked.
pub fn consume_check(held: i64, locked: i64, count: i32) -> (r: Result<i64, ServerError>)
    ensures
        count <= 0 ==> r is Err && is_rule(r->Err_0, "InvalidItemCount"@),
        count > 0 && (held < count || locked != 0) ==> r is Err && is_rule(r->Err_0, "ItemNotOwned"@),
        count > 0 && held >= count && locked == 0 ==> r == Ok::<i64, ServerError>((held - count) as i64),
{
    if count <= 0 {
        return Err(rule("InvalidItemCount"));
    }
    if held < count as i64 || locked != 0 {
        return Err(rule("ItemNotOwned"));
    }
    Ok(held - count as i64)
}

/// The stamina-like balances a potion can refill.
pub enum StaminaKind {
    Chicken,
    Sword,
    Sword2,
    GuildRaidTicket,
    WorldBossTicket,
}

impl StaminaKind {
    /// The name the client knows this balance by.
    pub open spec fn wire_of(self) -> Seq<char> {
        match self {
            StaminaKind::Chicken => "Chicken"@,
            StaminaKind::Sword => "Sword"@,
            StaminaKind::Sword2 => "Sword2"@,
            StaminaKind::GuildRaidTicket => "GuildRaidTicket"@,
            StaminaKind::WorldBossTicket => "WorldBossTicket"@,
        }
    }

    /// The name the client knows this balance by.
    pub fn wire(&self) -> (r: &'static str)
        ensures
            r@ == self.wire_of(),
    {
        match self {
            StaminaKind::Chicken => "Chicken",
            StaminaKind::Sword => "Sword",
            StaminaKind::Sword2 => "Sword2",
            StaminaKind::GuildRaidTicket => "GuildRaidTicket",
            StaminaKind::WorldBossTicket => "WorldBossTicket",
        }
    }
}

/// The balance a potion's sub-value names (`""`, `Stamina` and `Chicken` all mean the
/// main stamina).
pub open spec fn stamina_kind_of(sub: Seq<char>) -> Option<StaminaKind> {
    if sub == ""@ || sub == "Stamina"@ || sub == "Chicken"@ {
        Some(StaminaKind::Chicken)
    } else if sub == "Sword"@ {
        Some(StaminaKind::Sword)
    } else if sub == "Sword2"@ {
        Some(StaminaKind::Sword2)
    } else if sub == "GuildRaidTicket"@ {
        Some(StaminaKind::GuildRaidTicket)
    } else if sub == "WorldBossTicket"@ {
        Some(StaminaKind::WorldBossTicket)
    } else {
        None
    }
}

/// The balance a potion refills, refused with `InvalidStaminaType` for an unknown name.
pub fn stamina_kind(sub: &str) -> (r: Result<StaminaKind, ServerError>)
    ensures
        match stamina_kind_of(sub@) {
            Some(k) => r == Ok::<StaminaKind, ServerError>(k),
            None => r is Err && is_rule(r->Err_0, "InvalidStaminaType"@),
        },
{
    if str_eq(sub, "") || str_eq(sub, "Stamina") || str_eq(sub, "Chicken") {
        Ok(StaminaKind::Chicken)
    } else if str_eq(sub, "Sword") {
        Ok(StaminaKind::Sword)
    } else if str_eq(sub, "Sword2") {
        Ok(StaminaKind::Sword2)
    } else if str_eq(sub, "GuildRaidTicket") {
        Ok(StaminaKind::GuildRaidTicket)
    } else if str_eq(sub, "WorldBossTicket") {
        Ok(StaminaKind::WorldBossTicket)
    } else {
        Err(rule("InvalidStaminaType"))
    }
}

/// A potion's table row.
pub struct PotionData {
    pub action_type: i64,
    pub action_value: i64,
    pub action_sub_value: String,
}

/// What using a potion does.
pub enum PotionEffect {
    /// Adds `amount` to a stamina-like balance.
    Stamina { kind: StaminaKind, amount: i64 },
    /// Adds `amount` free gems.
    Gem { amount: i64 },
    /// Gives `amount` experience to a hero.
    HeroExp { amount: i64 },
    /// Adds `amount` expansions to the equipment inventory or the chest.
    Extend { chest: bool, amount: i64 },
    /// Adds `amount` extra transcendence points to a hero.
    TranscendPoint { amount: i64 },
}

/// The effect of using `count` potions: the action value times the count (a full-stamina
/// potion counts in percent of the team's stamina maximum), by action type.
pub open spec fn potion_effect_of(p: PotionData, count: int, team_max_stamina: int) -> Result<PotionEffect, Seq<char>> {
    let amount = p.action_value * count;
    if !(i64::MIN <= amount <= i64::MAX) {
        Err("InvalidItemCount"@)
    } else if amount <= 0 {
        Err("InvalidActionValue"@)
    } else if p.action_type == 1 || p.action_type == 2 {
        match stamina_kind_of(p.action_sub_value@) {
            None => Err("InvalidStaminaType"@),
            Some(k) => if p.action_type == 2 {
                if team_max_stamina <= 0 {
                    Err("InvalidActionValue"@)
                } else {
                    Ok(PotionEffect::Stamina { kind: k, amount: (team_max_stamina * amount / 100) as i64 })
                }
            } else {
                Ok(PotionEffect::Stamina { kind: k, amount: amount as i64 })
            },
        }
    } else if p.action_type == 4 {
        Ok(PotionEffect::Gem { amount: amount as i64 })
    } else if p.action_type == 3 {
        Ok(PotionEffect::HeroExp { amount: amount as i64 })
    } else if p.action_type == 6 || p.action_type == 10 {
        Ok(PotionEffect::Extend { chest: p.action_type == 10, amount: amount as i64 })
    } else if p.action_type == 11 {
        Ok(PotionEffect::TranscendPoint { amount: amount as i64 })
    } else {
        Err("InvalidAction"@)
    }
}

/// Decides what using `count` potions of `p` does.
pub fn potion_effect(p: &PotionData, count: i32, team_max_stamina: i64) -> (r: Result<PotionEffect, ServerError>)
    requires
        p.action_type == 2 ==> i64::MIN <= team_max_stamina * (p.action_value * count) <= i64::MAX,
    ensures
        match potion_effect_of(*p, count as int, team_max_stamina as int) {
            Ok(e) => r == Ok::<PotionEffect, ServerError>(e),
            Err(code) => r is Err && is_rule(r->Err_0, code),
        },
{
    proof {
        let a = p.action_value as int;
        let b = count as int;
        assert(-0x8000_0000_0000_0000_0000_0000 <= a * b <= 0x8000_0000_0000_0000_0000_0000) by (nonlinear_arith)
            requires
                -0x8000_0000_0000_0000 <= a <= 0x8000_0000_0000_0000,
                -0x8000_0000 <= b <= 0x8000_0000;
    }
    let wide = (p.action_value as i128) * (count as i128);
    if wide < i64::MIN as i128 || wide > i64::MAX as i128 {
        return Err(rule("InvalidItemCount"));
    }
    let amount = wide as i64;
    if amount <= 0 {
        return Err(rule("InvalidActionValue"));
    }
    if p.action_type == 1 || p.action_type == 2 {
        let kind = stamina_kind(p.action_sub_value.as_str())?;
        if p.action_type == 2 {
            if team_max_stamina <= 0 {
                return Err(rule("InvalidActionValue"));
            }
            return Ok(PotionEffect::Stamina { kind, amount: team_max_stamina * amount / 100 });
        }
        Ok(PotionEffect::Stamina { kind, amount })
    } else if p.action_type == 4 {
        Ok(PotionEffect::Gem { amount })
    } else if p.action_type == 3 {
        Ok(PotionEffect::HeroExp { amount })
    } else if p.action_type == 6 || p.action_type == 10 {
        Ok(PotionEffect::Extend { chest: p.action_type == 10, amount })
    } else if p.action_type == 11 {
        Ok(PotionEffect::TranscendPoint { amount })
    } else {
        Err(rule("InvalidAction"))
    }
}

/// A refilled stamina-like balance, refused with `InvalidActionValue` past `i32::MAX`.
pub fn refill(current: i64, amount: i64) -> (r: Result<i64, ServerError>)
    requires
        i64::MIN <= current + amount,
    ensures
        current + amount <= i32::MAX ==> r == Ok::<i64, ServerError>((current + amount) as i64),
        current + amount > i32::MAX ==> r is Err && is_rule(r->Err_0, "InvalidActionValue"@),
{
    if (current as i128) + (amount as i128) > i32::MAX as i128 {
        return Err(rule("InvalidActionValue"));
    }
    Ok(current + amount)
}

/// The expansion count after an expansion potion, refused with `InvalidActionValue` past the
/// largest tier.
pub fn extension_after(old: i64, amount: i64, max: i64) -> (r: Result<i64, ServerError>)
    requires
        i64::MIN <= old + amount,
    ensures
        old + amount <= max ==> r == Ok::<i64, ServerError>((old + amount) as i64),
        old + amount > max ==> r is Err && is_rule(r->Err_0, "InvalidActionValue"@),
{
    if (old as i128) + (amount as i128) > max as i128 {
        return Err(rule("InvalidActionValue"));
    }
    Ok(old + amount)
}

/// A hero's extra transcendence points after a potion, refused with
/// `MaxHeroTranscendPoint` past `max`.
pub fn transcend_points_after(points: i64, amount: i64, max: i64) -> (r: Result<i64, ServerError>)
    ensures
        points + amount <= max && amount > 0 ==> r == Ok::<i64, ServerError>((points + amount) as i64),
        (points + amount > max || points + amount > i64::MAX) ==> r is Err && is_rule(r->Err_0, "MaxHeroTranscendPoint"@),
        points + amount <= max && amount <= 0 ==> r is Err && is_rule(r->Err_0, "InvalidHeroTranscendPoint"@),
{
    let sum = (points as i128) + (amount as i128);
    if sum > i64::MAX as i128 || sum > max as i128 {
        return Err(rule("MaxHeroTranscendPoint"));
    }
    if amount <= 0 {
        return Err(rule("InvalidHeroTranscendPoint"));
    }
    Ok(sum as i64)
}

/// A package's table row: up to five rewards, each chosen with its rate out of 1000.
pub struct PackageData {
    pub max_open_count: i64,
    pub rates: Vec<i64>,
    pub rewards: Vec<i64>,
}

/// The reward a roll in `0..1000` opens: the reward whose rate range holds the roll, or
/// a refusal when the roll falls past every rate or on an empty reward.
pub open spec fn package_reward_of(pkg: PackageData, roll: int) -> Option<i64> {
    match weighted_index(pkg.rates@, roll) {
        Some(i) => if i < pkg.rewards@.len() && pkg.rewards@[i] > 0 { Some(pkg.rewards@[i]) } else { None },
        None => None,
    }
}

/// The reward index a package roll lands on, refused with `PackageDataNotFound`.
pub fn package_reward(pkg: &PackageData, roll: i64) -> (r: Result<i64, ServerError>)
    ensures
        match package_reward_of(*pkg, roll as int) {
            Some(v) => r == Ok::<i64, ServerError>(v),
            None => r is Err && is_rule(r->Err_0, "PackageDataNotFound"@),
        },
{
    match pick_by_weight(&pkg.rates, roll) {
        Some(i) => {
            proof {
                assert(weighted_index(pkg.rates@, roll as int) == Some(i as int));
            }
            if i < pkg.rewards.len() && pkg.rewards[i] > 0 {
                Ok(pkg.rewards[i])
            } else {
                Err(rule("PackageDataNotFound"))
            }
        },
        None => Err(rule("PackageDataNotFound")),
    }
}

/// Refuses to open more packages at once than the package allows.
pub fn check_open_count(pkg: &PackageData, count: i32) -> (r: Result<(), ServerError>)
    ensures
        (pkg.max_open_count > 0 && count > pkg.max_open_count) ==> r is Err && is_rule(r->Err_0, "InvalidItemCount"@),
        !(pkg.max_open_count > 0 && count > pkg.max_open_count) ==> r is Ok,
{
    if pkg.max_open_count > 0 && count as i64 > pkg.max_open_count {
        return Err(rule("InvalidItemCount"));
    }
    Ok(())
}

/// Opens one package with a fresh roll in `0..1000`: the reward is the one that roll
/// lands on, and a roll that lands on no reward is refused with `PackageDataNotFound`.
pub fn open_package(pkg: &PackageData) -> (r: Result<i64, ServerError>)
    ensures
        exists|roll: int| 0 <= roll < 1000 && #[trigger] package_reward_of(*pkg, roll) == (match r {
            Ok(v) => Some(v),
            Err(_) => None::<i64>,
        }) && (r is Err ==> is_rule(r->Err_0, "PackageDataNotFound"@)),
        (forall|roll: int| 0 <= roll < 1000 ==> #[trigger] package_reward_of(*pkg, roll) is Some) ==> r is Ok,
        (forall|roll: int| 0 <= roll < 1000 ==> #[trigger] package_reward_of(*pkg, roll) is None) ==> r is Err,
{
    let roll = random_below(1000);
    let r = package_reward(pkg, roll);
    proof {
        assert(package_reward_of(*pkg, roll as int) == (match r { Ok(v) => Some(v), Err(_) => None::<i64> }));
    }
    r
}

} // verus!

verus! {

/// The sum of the counts given for item `id` among the first `n` pairs.
pub open spec fn count_for(ids: Seq<i64>, counts: Seq<i64>, id: i64, n: int) -> int
    decreases n,
{
    if n <= 0 {
        0
    } else {
        count_for(ids, counts, id, n - 1) + if ids[n - 1] == id { counts[n - 1] as int } else { 0 }
    }
}

/// True when `v` is ordered by strictly increasing item.
pub open spec fn by_item(v: Seq<(i32, i32)>) -> bool {
    forall|i: int, j: int| 0 <= i < j < v.len() ==> v[i].0 < v[j].0
}

/// True when the lists of a request are well formed for `pairs`: 1 to 100 items, as many
/// counts, every item and count an `i32`, every count positive, and each item's total an
/// `i32`.
pub open spec fn pairs_ok(ids: Seq<i64>, counts: Seq<i64>) -> bool {
    &&& 1 <= ids.len() <= 100
    &&& ids.len() == counts.len()
    &&& forall|i: int| 0 <= i < ids.len() ==> i32::MIN <= #[trigger] ids[i] <= i32::MAX
    &&& forall|i: int| 0 <= i < counts.len() ==> 0 < #[trigger] counts[i] <= i32::MAX
    &&& forall|i: int| 0 <= i < ids.len() ==> #[trigger] count_for(ids, counts, ids[i], ids.len() as int) <= i32::MAX
}

proof fn lemma_count_for_pos(ids: Seq<i64>, counts: Seq<i64>, id: i64, a: int, b: int)
    requires
        0 <= a <= b <= counts.len(),
        forall|i: int| 0 <= i < counts.len() ==> 0 < #[trigger] counts[i],
    ensures
        0 <= count_for(ids, counts, id, a) <= count_for(ids, counts, id, b),
    decreases b,
{
    if b > 0 {
        if a == b {
            lemma_count_for_pos(ids, counts, id, b - 1, b - 1);
        } else {
            lemma_count_for_pos(ids, counts, id, a, b - 1);
        }
    }
}

/// The items of a list of `(item, count)` pairs.
pub open spec fn items_of(v: Seq<(i32, i32)>) -> Seq<i64> {
    v.map_values(|p: (i32, i32)| p.0 as i64)
}

/// Combines the items and counts of a request (`ItemIndices` and the counts field): each
/// item once, with its counts added up, by increasing item. Refused with
/// `InvalidItemCount` when the lists are not JSON lists of `i64`, or when
/// `merge_counts` refuses them.
pub fn pairs(req: &Request, counts_key: &str) -> (r: Result<Vec<(i32, i32)>, ServerError>)
    ensures
        match (crate::lists::json_int_array(req.text_of("ItemIndices"@)), crate::lists::json_int_array(req.text_of(counts_key@))) {
            (Some(ids), Some(counts)) => merged(ids, counts, r),
            _ => r is Err && is_rule(r->Err_0, "InvalidItemCount"@),
        },
{
    let ids = crate::lists::int_array(req.text("ItemIndices"), "InvalidItemCount")?;
    let counts = crate::lists::int_array(req.text(counts_key), "InvalidItemCount")?;
    merge_counts(&ids, &counts)
}

/// What `merge_counts` gives for the lists `ids` and `counts`: when they are well formed,
/// each item once, by increasing item, with the sum of its counts; otherwise a refusal
/// with `InvalidItemCount`.
pub open spec fn merged(ids: Seq<i64>, counts: Seq<i64>, r: Result<Vec<(i32, i32)>, ServerError>) -> bool {
    if pairs_ok(ids, counts) {
        &&& r is Ok
        &&& by_item(r->Ok_0@)
        &&& forall|x: i64| ids.contains(x) <==> items_of(r->Ok_0@).contains(x)
        &&& forall|k: int| 0 <= k < r->Ok_0@.len() ==>
                #[trigger] r->Ok_0@[k].1 == count_for(ids, counts, r->Ok_0@[k].0 as i64, ids.len() as int)
    } else {
        r is Err && is_rule(r->Err_0, "InvalidItemCount"@)
    }
}

/// Adds up the counts given for each item: 1 to 100 items with as many counts, every item
/// an `i32`, every count and every item's total a positive `i32`; refused with
/// `InvalidItemCount` otherwise.
pub fn merge_counts(ids: &Vec<i64>, counts: &Vec<i64>) -> (r: Result<Vec<(i32, i32)>, ServerError>)
    ensures
        merged(ids@, counts@, r),
{
    if ids.len() == 0 || ids.len() > 100 || ids.len() != counts.len() {
        return Err(rule("InvalidItemCount"));
    }
    let n = ids.len();
    let mut k: usize = 0;
    while k < n
        invariant
            n == ids@.len(),
            ids@.len() == counts@.len(),
            k <= n,
            forall|i: int| 0 <= i < k ==> i32::MIN <= #[trigger] ids@[i] <= i32::MAX,
            forall|i: int| 0 <= i < k ==> 0 < #[trigger] counts@[i] <= i32::MAX,
        decreases n - k,
    {
        if ids[k] < i32::MIN as i64 || ids[k] > i32::MAX as i64 || counts[k] <= 0 || counts[k] > i32::MAX as i64 {
            proof {
                assert(!pairs_ok(ids@, counts@));
            }
            return Err(rule("InvalidItemCount"));
        }
        k = k + 1;
    }
    let mut out: Vec<(i32, i32)> = Vec::new();
    let mut i: usize = 0;
    while i < n
        invariant
            n == ids@.len(),
            ids@.len() == counts@.len(),
            1 <= n <= 100,
            i <= n,
            forall|x: int| 0 <= x < n ==> i32::MIN <= #[trigger] ids@[x] <= i32::MAX,
            forall|x: int| 0 <= x < n ==> 0 < #[trigger] counts@[x] <= i32::MAX,
            by_item(out@),
            forall|x: i64| ids@.take(i as int).contains(x) <==> items_of(out@).contains(x),
            forall|b: int| 0 <= b < out@.len() ==>
                #[trigger] out@[b].1 == count_for(ids@, counts@, out@[b].0 as i64, i as int),
        decreases n - i,
    {
        let id = ids[i] as i32;
        let c = counts[i] as i32;
        let mut p: usize = 0;
        while p < out.len() && out[p].0 < id
            invariant
                p <= out@.len(),
                forall|b: int| 0 <= b < p ==> out@[b].0 < id,
            decreases out@.len() - p,
        {
            p = p + 1;
        }
        let ghost before = out@;
        proof {
            assert(ids@.take(i + 1) =~= ids@.take(i as int).push(ids@[i as int]));
        }
        if p < out.len() && out[p].0 == id {
            let total = out[p].1 as i64 + c as i64;
            if total > i32::MAX as i64 {
                proof {
                    lemma_count_for_pos(ids@, counts@, id as i64, i + 1, n as int);
                    assert(ids@[i as int] == id as i64);
                    assert(count_for(ids@, counts@, ids@[i as int], n as int) > i32::MAX);
                    assert(!pairs_ok(ids@, counts@));
                }
                return Err(rule("InvalidItemCount"));
            }
            out.set(p, (id, total as i32));
            proof {
                assert(items_of(out@) =~= items_of(before));
                assert(items_of(before)[p as int] == id as i64);
                let t1 = ids@.take(i + 1);
                let t0 = ids@.take(i as int);
                assert forall|x: i64| t1.contains(x) <==> items_of(out@).contains(x) by {
                    if x == id as i64 {
                        assert(t1[i as int] == x);
                    } else {
                        if t1.contains(x) {
                            let a = choose|a: int| 0 <= a < i + 1 && t1[a] == x;
                            assert(t0[a] == x);
                        }
                        if t0.contains(x) {
                            let a = choose|a: int| 0 <= a < i && t0[a] == x;
                            assert(t1[a] == x);
                        }
                    }
                }
                assert forall|b: int| 0 <= b < out@.len() implies
                    #[trigger] out@[b].1 == count_for(ids@, counts@, out@[b].0 as i64, i + 1) by {
                    assert(before[b].1 == count_for(ids@, counts@, before[b].0 as i64, i as int));
                }
            }
        } else {
            proof {
                if p < before.len() {
                    assert(before[p as int].0 > id);
                }
                assert(!items_of(before).contains(id as i64)) by {
                    if items_of(before).contains(id as i64) {
                        let b = choose|b: int| 0 <= b < items_of(before).len() && items_of(before)[b] == id as i64;
                        if b < p {
                            assert(before[b].0 < id);
                        } else {
                            assert(before[b].0 >= before[p as int].0);
                        }
                    }
                }
                assert(!(exists|a: int| 0 <= a < i && ids@[a] == id as i64)) by {
                    if exists|a: int| 0 <= a < i && ids@[a] == id as i64 {
                        let a = choose|a: int| 0 <= a < i && ids@[a] == id as i64;
                        assert(ids@.take(i as int)[a] == id as i64);
                    }
                }
                lemma_count_for_absent(ids@, counts@, id as i64, i as int);
            }
            out.insert(p, (id, c));
            proof {
                assert(out@ == before.insert(p as int, (id, c)));
                assert(items_of(out@) =~= items_of(before).insert(p as int, id as i64));
                assert forall|a: int, b: int| 0 <= a < b < out@.len() implies out@[a].0 < out@[b].0 by {
                    if b < p {
                        assert(out@[a] == before[a] && out@[b] == before[b]);
                    } else if b == p {
                        assert(out@[a] == before[a]);
                    } else if a < p {
                        assert(out@[a] == before[a] && out@[b] == before[b - 1]);
                        assert(before[b - 1].0 >= before[p as int].0);
                    } else if a == p {
                        assert(out@[b] == before[b - 1]);
                        assert(before[b - 1].0 >= before[p as int].0);
                    } else {
                        assert(out@[a] == before[a - 1] && out@[b] == before[b - 1]);
                    }
                }
                let t1 = ids@.take(i + 1);
                let t0 = ids@.take(i as int);
                assert forall|x: i64| t1.contains(x) <==> items_of(out@).contains(x) by {
                    let io = items_of(out@);
                    let ib = items_of(before);
                    if x == id as i64 {
                        assert(t1[i as int] == x);
                        assert(io[p as int] == x);
                    } else {
                        if t1.contains(x) {
                            let a = choose|a: int| 0 <= a < i + 1 && t1[a] == x;
                            assert(t0[a] == x);
                            assert(ib.contains(x));
                            let b = choose|b: int| 0 <= b < ib.len() && ib[b] == x;
                            if b < p {
                                assert(io[b] == x);
                            } else {
                                assert(io[b + 1] == x);
                            }
                        }
                        if io.contains(x) {
                            let b = choose|b: int| 0 <= b < io.len() && io[b] == x;
                            if b < p {
                                assert(ib[b] == x);
                            } else {
                                assert(ib[b - 1] == x);
                            }
                            assert(ib.contains(x));
                            assert(items_of(before).contains(x));
                            assert(t0.contains(x));
                            let a = choose|a: int| 0 <= a < i && t0[a] == x;
                            assert(t1[a] == x);
                        }
                    }
                }
                assert forall|b: int| 0 <= b < out@.len() implies
                    #[trigger] out@[b].1 == count_for(ids@, counts@, out@[b].0 as i64, i + 1) by {
                    if b < p {
                        assert(out@[b] == before[b]);
                    } else if b > p {
                        assert(out@[b] == before[b - 1]);
                    }
                }
            }
        }
        i = i + 1;
    }
    proof {
        assert(ids@.take(n as int) =~= ids@);
        assert forall|x: int| 0 <= x < n implies #[trigger] count_for(ids@, counts@, ids@[x], n as int) <= i32::MAX by {
            assert(ids@.contains(ids@[x]));
            assert(items_of(out@).contains(ids@[x]));
            let b = choose|b: int| 0 <= b < items_of(out@).len() && items_of(out@)[b] == ids@[x];
            assert(out@[b].1 == count_for(ids@, counts@, out@[b].0 as i64, n as int));
        }
    }
    Ok(out)
}

proof fn lemma_count_for_absent(ids: Seq<i64>, counts: Seq<i64>, id: i64, n: int)
    requires
        0 <= n <= ids.len(),
        !(exists|a: int| 0 <= a < n && ids[a] == id),
    ensures
        count_for(ids, counts, id, n) == 0,
    decreases n,
{
    if n > 0 {
        lemma_count_for_absent(ids, counts, id, n - 1);
    }
}

} // verus!

verus! {

/// What the item table says of an item that is sold or broken.
pub struct SaleTerms {
    pub breakable: bool,
    pub not_for_sale: bool,
    pub sell_gold: i64,
}

/// One `(item, count)` pair of a sale or a break, with what the tables and the player's
/// inventory hold for it: the item's terms (none when the item is unknown), the lock flag
/// of a stack holding at least `count` (none when there is no such stack), and the break
/// reward of the item (none when it has none).
pub struct SaleLine {
    pub item: i32,
    pub count: i32,
    pub terms: Option<SaleTerms>,
    pub lock: Option<i32>,
    pub break_reward: Option<i32>,
}

/// The outcome of one line after `gold` was earned by the lines before it: the gold earned
/// so far, or the rule code that refuses the line.
pub open spec fn line_outcome(breaking: bool, l: SaleLine, gold: int) -> Result<int, Seq<char>> {
    match l.terms {
        None => Err("ItemDataNotFound"@),
        Some(t) => match l.lock {
            None => Err(if breaking { "ItemNotOwned"@ } else { "NotOwned"@ }),
            Some(k) => if k != 0 {
                Err("LockedItemExists"@)
            } else if breaking {
                if l.count > 1000 || !t.breakable {
                    Err("NotBreakableItemExists"@)
                } else if l.break_reward is None {
                    Err("ItemBreakDataNotFound"@)
                } else {
                    Ok(gold)
                }
            } else if t.not_for_sale || t.sell_gold <= 0 {
                Err("NotForSale"@)
            } else if gold + t.sell_gold * l.count > i64::MAX {
                Err("InvalidItemCount"@)
            } else {
                Ok(gold + t.sell_gold * l.count)
            },
        },
    }
}

/// The outcome of a sale or a break over `lines`, taken in order: the gold that the sale
/// earns (0 for a break), or the code of the first line refused.
pub open spec fn sale_outcome(breaking: bool, lines: Seq<SaleLine>) -> Result<int, Seq<char>>
    decreases lines.len(),
{
    if lines.len() == 0 {
        Ok(0)
    } else {
        match sale_outcome(breaking, lines.drop_last()) {
            Ok(g) => line_outcome(breaking, lines.last(), g),
            Err(e) => Err(e),
        }
    }
}

/// True when every line has a positive count and a price times count that fits in `i64`.
pub open spec fn sale_lines_ok(lines: Seq<SaleLine>) -> bool {
    forall|i: int| 0 <= i < lines.len() ==> {
        &&& #[trigger] lines[i].count > 0
        &&& (lines[i].terms matches Some(t) ==> i64::MIN <= t.sell_gold * lines[i].count <= i64::MAX)
    }
}

proof fn lemma_sale_outcome_nonneg(breaking: bool, lines: Seq<SaleLine>)
    requires
        sale_lines_ok(lines),
    ensures
        sale_outcome(breaking, lines) matches Ok(g) ==> g >= 0,
    decreases lines.len(),
{
    if lines.len() > 0 {
        let front = lines.drop_last();
        assert forall|i: int| 0 <= i < front.len() implies #[trigger] front[i].count > 0
            && (front[i].terms matches Some(t) ==> i64::MIN <= t.sell_gold * front[i].count <= i64::MAX) by {
            assert(front[i] == lines[i]);
        }
        lemma_sale_outcome_nonneg(breaking, front);
        assert(lines[lines.len() - 1].count > 0);
        if let Some(t) = lines.last().terms {
            if t.sell_gold > 0 {
                assert(t.sell_gold * lines.last().count > 0) by (nonlinear_arith)
                    requires t.sell_gold > 0, lines.last().count > 0;
            }
        }
    }
}

proof fn lemma_sale_error_sticks(breaking: bool, lines: Seq<SaleLine>, k: int)
    requires
        0 <= k <= lines.len(),
        sale_outcome(breaking, lines.take(k)) is Err,
    ensures
        sale_outcome(breaking, lines) == sale_outcome(breaking, lines.take(k)),
    decreases lines.len() - k,
{
    if k < lines.len() {
        assert(lines.take(k + 1).drop_last() =~= lines.take(k));
        lemma_sale_error_sticks(breaking, lines, k + 1);
    } else {
        assert(lines.take(k) =~= lines);
    }
}

/// Checks the lines of a sale (`breaking` false) or a break (`breaking` true) in order and
/// adds up the gold that a sale earns: each line's count times the item's price. The first
/// line refused decides the error.
pub fn sale_gold(breaking: bool, lines: &Vec<SaleLine>) -> (r: Result<i64, ServerError>)
    requires
        sale_lines_ok(lines@),
    ensures
        match sale_outcome(breaking, lines@) {
            Ok(g) => r == Ok::<i64, ServerError>(g as i64),
            Err(e) => r is Err && is_rule(r->Err_0, e),
        },
{
    let mut gold: i64 = 0;
    let mut i: usize = 0;
    let n = lines.len();
    while i < n
        invariant
            n == lines@.len(),
            i <= n,
            sale_lines_ok(lines@),
            0 <= gold,
            sale_outcome(breaking, lines@.take(i as int)) == Ok::<int, Seq<char>>(gold as int),
        decreases n - i,
    {
        let l = &lines[i];
        let ghost before = gold as int;
        proof {
            assert(lines@.take(i + 1).drop_last() =~= lines@.take(i as int));
            assert(lines@.take(i + 1).last() == lines@[i as int]);
            assert(l.count > 0);
        }
        let step: Result<i64, ServerError> = match &l.terms {
            None => Err(rule("ItemDataNotFound")),
            Some(t) => match l.lock {
                None => Err(rule(if breaking { "ItemNotOwned" } else { "NotOwned" })),
                Some(k) => if k != 0 {
                    Err(rule("LockedItemExists"))
                } else if breaking {
                    if l.count > 1000 || !t.breakable {
                        Err(rule("NotBreakableItemExists"))
                    } else if l.break_reward.is_none() {
                        Err(rule("ItemBreakDataNotFound"))
                    } else {
                        Ok(gold)
                    }
                } else if t.not_for_sale || t.sell_gold <= 0 {
                    Err(rule("NotForSale"))
                } else {
                    let earned = t.sell_gold * l.count as i64;
                    match gold.checked_add(earned) {
                        Some(g) => Ok(g),
                        None => Err(rule("InvalidItemCount")),
                    }
                },
            },
        };
        proof {
            reveal_strlit("ItemNotOwned");
            reveal_strlit("NotOwned");
        }
        match step {
            Ok(g) => {
                proof {
                    lemma_sale_outcome_nonneg(breaking, lines@.take(i + 1));
                    assert forall|x: int| 0 <= x < lines@.take(i + 1).len() implies
                        #[trigger] lines@.take(i + 1)[x].count > 0
                        && (lines@.take(i + 1)[x].terms matches Some(t) ==> i64::MIN <= t.sell_gold * lines@.take(i + 1)[x].count <= i64::MAX) by {
                        assert(lines@.take(i + 1)[x] == lines@[x]);
                    }
                }
                gold = g;
            },
            Err(e) => {
                proof {
                    lemma_sale_error_sticks(breaking, lines@, i + 1);
                }
                return Err(e);
            },
        }
        i = i + 1;
    }
    proof {
        assert(lines@.take(n as int) =~= lines@);
    }
    Ok(gold)
}

} // verus!

verus! {

/// The four actions on equipment slots.
pub enum EquipAction {
    /// Sets or clears the lock of a slot.
    Lock,
    /// Sells the equipment for gold.
    Sell,
    /// Moves the equipment into the chest.
    ToChest,
    /// Moves the equipment out of the chest.
    FromChest,
}

/// What the player's records hold for one equipment slot.
pub struct EquipSlot {
    /// 0 for the inventory, 1 for the chest, more for places it cannot leave.
    pub inventory_type: i32,
    pub locked: i32,
    /// The slot is being worked on elsewhere (pending equipment or a soul stone).
    pub in_use: bool,
    /// The slot is part of a saved equipment preset.
    pub in_preset: bool,
    /// A hero wears the equipment.
    pub worn: bool,
}

/// What to do with one slot.
pub enum EquipStep {
    /// Store this lock flag.
    SetLock(i64),
    /// Delete the slot; the sale earns this much gold.
    Sell(i64),
    /// Move the slot to `destination`; `needs_room` when it is not there already, so
    /// that the destination's capacity must be checked first.
    Move { destination: i32, needs_room: bool },
}

/// The step for one slot, or the code that refuses it. `slot` is none when the player has
/// no such slot, `lock` is the `Locked` field (none when it is not a number), and `terms`
/// the item table's terms for the slot's item (none when the item is unknown).
pub open spec fn equip_step_of(action: EquipAction, slot: Option<EquipSlot>, lock: Option<i64>, terms: Option<SaleTerms>) -> Result<EquipStep, Seq<char>> {
    match slot {
        None => Err("EquipNotOwned"@),
        Some(s) => {
            let locking = action is Lock;
            if !locking && (s.inventory_type > 1 || s.in_use || s.in_preset) {
                Err("Equipped"@)
            } else if locking {
                match lock {
                    None => Err("InvalidValue"@),
                    Some(v) => if v == 0 || v == 1 { Ok(EquipStep::SetLock(v)) } else { Err("Fail"@) },
                }
            } else if s.worn {
                Err("Equipped"@)
            } else if action is Sell {
                if s.locked != 0 {
                    Err("LockedEquipItemExists"@)
                } else {
                    match terms {
                        None => Err("ItemDataNotFound"@),
                        Some(t) => if t.not_for_sale || t.sell_gold <= 0 {
                            Err("NotForSale"@)
                        } else {
                            Ok(EquipStep::Sell(t.sell_gold))
                        },
                    }
                }
            } else {
                let destination: i32 = if action is ToChest { 1 } else { 0 };
                Ok(EquipStep::Move { destination, needs_room: s.inventory_type != destination })
            }
        },
    }
}

/// Decides what happens to one equipment slot under `action`: the checks run in the order
/// of the table of codes in `equip_step_of`.
pub fn equip_slot_step(action: &EquipAction, slot: &Option<EquipSlot>, req: &Request, terms: &Option<SaleTerms>) -> (r: Result<EquipStep, ServerError>)
    ensures
        match equip_step_of(*action, *slot, req.number_of("Locked"@, 0), *terms) {
            Ok(step) => r == Ok::<EquipStep, ServerError>(step),
            Err(e) => r is Err && is_rule(r->Err_0, e),
        },
{
    let s = match slot {
        None => { return Err(rule("EquipNotOwned")); },
        Some(s) => s,
    };
    let locking = match action { EquipAction::Lock => true, _ => false };
    if !locking && (s.inventory_type > 1 || s.in_use || s.in_preset) {
        return Err(rule("Equipped"));
    }
    if locking {
        let v = req.number("Locked", 0)?;
        if v != 0 && v != 1 {
            return Err(rule("Fail"));
        }
        return Ok(EquipStep::SetLock(v));
    }
    if s.worn {
        return Err(rule("Equipped"));
    }
    match action {
        EquipAction::Sell => {
            if s.locked != 0 {
                return Err(rule("LockedEquipItemExists"));
            }
            match terms {
                None => Err(rule("ItemDataNotFound")),
                Some(t) => if t.not_for_sale || t.sell_gold <= 0 {
                    Err(rule("NotForSale"))
                } else {
                    Ok(EquipStep::Sell(t.sell_gold))
                },
            }
        },
        _ => {
            let destination: i32 = match action { EquipAction::ToChest => 1, _ => 0 };
            Ok(EquipStep::Move { destination, needs_room: s.inventory_type != destination })
        },
    }
}

} // verus!
