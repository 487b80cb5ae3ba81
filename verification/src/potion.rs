//! Stamina potions used from the item bag.
use vstd::prelude::*;
use crate::inn::{index_text, index_text_value};

verus! {

/// A stamina balance change as the client shows it.
pub struct StaminaResultInfo {
    /// The stamina kind's wire name, such as `Chicken` for the main stamina.
    pub stamina_type: String,
    pub add_value: i32,
    pub new_value: i32,
    pub stamina_recharge_time: Option<String>,
    pub next_recharge_remain_time: i32,
    pub full_recharge_remain_time: i32,
    pub recharge_count: i32,
    pub is_hide: bool,
}

/// An item stack change as the client shows it.
pub struct ItemResultInfo {
    pub item_index: i32,
    pub add_count: i32,
    pub new_count: i32,
    pub add_booster_count: i32,
    pub add_npc_booster_count: i32,
    pub add_bonus_assigned_item_percent: i32,
    pub locked: i32,
    pub is_first_clear_reward: bool,
}

/// A request to use stamina potions; every number arrives as text.
pub struct UsePotionItemRequest {
    pub session_id: Option<String>,
    pub item_index: Option<String>,
    pub item_count: Option<String>,
    pub hero_index: Option<String>,
    pub chapter_index: Option<String>,
}

/// The answer to using stamina potions.
pub struct UsePotionItemResponse {
    pub base_result: String,
    pub result: String,
    pub stamina_result: Option<StaminaResultInfo>,
    pub item_result: Option<ItemResultInfo>,
}

/// The stamina an item restores and the kind it restores: the inn's gift foods and the
/// stamina potions restore main stamina (`Chicken`); a value of 0 fills up to 999.
pub open spec fn stamina_item(item_index: int) -> Option<(i32, Seq<char>)> {
    if item_index == 41001 { Some((30i32, "Chicken"@)) }
    else if item_index == 41002 { Some((60i32, "Chicken"@)) }
    else if item_index == 41003 { Some((90i32, "Chicken"@)) }
    else if item_index == 41004 { Some((120i32, "Chicken"@)) }
    else if item_index == 41005 { Some((150i32, "Chicken"@)) }
    else if item_index == 41006 { Some((180i32, "Chicken"@)) }
    else if item_index == 120001 { Some((150i32, "Chicken"@)) }
    else if item_index == 120004 { Some((0i32, "Chicken"@)) }
    else { None }
}

/// Looks up the stamina an item restores.
pub fn get_stamina_item_info(item_index: i32) -> (r: Option<(i32, &'static str)>)
    ensures
        match stamina_item(item_index as int) {
            Some((v, t)) => r is Some && (r->0).0 == v && (r->0).1@ == t,
            None => r is None,
        },
{
    if item_index == 41001 { Some((30, "Chicken")) }
    else if item_index == 41002 { Some((60, "Chicken")) }
    else if item_index == 41003 { Some((90, "Chicken")) }
    else if item_index == 41004 { Some((120, "Chicken")) }
    else if item_index == 41005 { Some((150, "Chicken")) }
    else if item_index == 41006 { Some((180, "Chicken")) }
    else if item_index == 120001 { Some((150, "Chicken")) }
    else if item_index == 120004 { Some((0, "Chicken")) }
    else { None }
}

/// The stamina `count` items worth `value` each restore from `current`: a value of 0 tops
/// up to 999, never taking stamina away.
pub open spec fn stamina_gain(value: int, count: int, current: int) -> int {
    if value == 0 {
        if 999 - current > 0 { 999 - current } else { 0 }
    } else {
        value * count
    }
}

/// The stamina after the gain, held to 999999.
pub open spec fn stamina_after(value: int, count: int, current: int) -> int {
    let total = current + stamina_gain(value, count, current);
    if total < 999999 { total } else { 999999 }
}

/// True when the stamina sums of using `count` items fit in `i32`.
pub open spec fn potion_sums_fit(item_index: int, count: int, current: int) -> bool {
    match stamina_item(item_index) {
        Some((v, _)) => i32::MIN <= stamina_gain(v as int, count, current) <= i32::MAX
            && i32::MIN <= current + stamina_gain(v as int, count, current) <= i32::MAX,
        None => true,
    }
}

/// What using stamina potions changes.
pub struct PotionUse {
    pub response: UsePotionItemResponse,
    /// The stamina to store, when the item restores stamina.
    pub new_stamina: Option<i32>,
    /// The stack's count after use; the stack is removed when it is not positive.
    pub new_count: i32,
}

/// Uses `count` items of kind `item_index` out of `held`, for a player with `stamina`.
/// Refused with `NotEnoughItem` when fewer are held; a stamina item raises the stamina as
/// `stamina_after` says, and the stack loses `count`.
pub fn use_potion_item(item_index: i32, count: i32, held: i32, stamina: i32) -> (r: PotionUse)
    requires
        held >= count ==> i32::MIN < count && held - count <= i32::MAX,
        held >= count ==> potion_sums_fit(item_index as int, count as int, stamina as int),
    ensures
        r.response.base_result@ == "Success"@,
        held < count ==> r.response.result@ == "NotEnoughItem"@
            && r.response.stamina_result is None && r.response.item_result is None
            && r.new_stamina is None && r.new_count == held,
        held >= count ==> {
            &&& r.response.result@ == "Success"@
            &&& r.new_count == held - count
            &&& r.response.item_result == Some(ItemResultInfo {
                item_index, add_count: (-count) as i32, new_count: (held - count) as i32,
                add_booster_count: 0, add_npc_booster_count: 0, add_bonus_assigned_item_percent: 0,
                locked: 0, is_first_clear_reward: false,
            })
            &&& match stamina_item(item_index as int) {
                Some((v, t)) => {
                    let after = stamina_after(v as int, count as int, stamina as int);
                    &&& r.new_stamina == Some(after as i32)
                    &&& r.response.stamina_result is Some
                    &&& ({
                        let s = r.response.stamina_result->0;
                        &&& s.stamina_type@ == t
                        &&& s.add_value == after - stamina
                        &&& s.new_value == after
                        &&& s.stamina_recharge_time is None
                        &&& s.next_recharge_remain_time == 0
                        &&& s.full_recharge_remain_time == 0
                        &&& s.recharge_count == 0
                        &&& !s.is_hide
                    })
                },
                None => r.new_stamina is None && r.response.stamina_result is None,
            }
        },
{
    if held < count {
        return PotionUse {
            response: UsePotionItemResponse {
                base_result: String::from_str("Success"),
                result: String::from_str("NotEnoughItem"),
                stamina_result: None,
                item_result: None,
            },
            new_stamina: None,
            new_count: held,
        };
    }
    let mut stamina_result: Option<StaminaResultInfo> = None;
    let mut new_stamina: Option<i32> = None;
    match get_stamina_item_info(item_index) {
        Some((value, kind)) => {
            let total: i64 = if value == 0 {
                let gap = 999 - stamina as i64;
                if gap > 0 { gap } else { 0 }
            } else {
                value as i64 * count as i64
            };
            let sum = stamina as i64 + total;
            let after: i64 = if sum < 999999 { sum } else { 999999 };
            new_stamina = Some(after as i32);
            stamina_result = Some(StaminaResultInfo {
                stamina_type: String::from_str(kind),
                add_value: (after - stamina as i64) as i32,
                new_value: after as i32,
                stamina_recharge_time: None,
                next_recharge_remain_time: 0,
                full_recharge_remain_time: 0,
                recharge_count: 0,
                is_hide: false,
            });
        },
        None => {},
    }
    let new_count = held - count;
    PotionUse {
        response: UsePotionItemResponse {
            base_result: String::from_str("Success"),
            result: String::from_str("Success"),
            stamina_result,
            item_result: Some(ItemResultInfo {
                item_index,
                add_count: -count,
                new_count,
                add_booster_count: 0,
                add_npc_booster_count: 0,
                add_bonus_assigned_item_percent: 0,
                locked: 0,
                is_first_clear_reward: false,
            }),
        },
        new_stamina,
        new_count,
    }
}

/// The item and count of a potion request: the index defaults to 0 and the count to 1 when
/// missing or unreadable.
pub fn potion_request(req: &UsePotionItemRequest) -> (r: (i32, i32))
    ensures
        r.0 == index_text_value(match req.item_index { Some(s) => Some(s@), None => None }, 0),
        r.1 == index_text_value(match req.item_count { Some(s) => Some(s@), None => None }, 1),
{
    (index_text(&req.item_index, 0), index_text(&req.item_count, 1))
}

} // verus!
