//! Using items: which handler an item endpoint runs, and the checks of rune locks,
//! boosters, selection items, hero selectors and rune dismantling.
use vstd::prelude::*;
use crate::error::{rule, is_rule, ServerError};
use crate::forms::Request;
use crate::text::str_eq;
use crate::lists::{json_int_array, all_within};
use vstd::string::StrSliceExecFns;

verus! {

/// The item endpoints.
pub enum ItemAction {
    BreakRune,
    SellItem,
    BreakItem,
    SellEquip,
    LockEquip,
    ToChest,
    FromChest,
    ExtendEquip,
    ExtendChest,
    LockRune,
    UseBooster,
    UsePotion,
    UsePackage,
    UsePackageSelect,
    UseWeaponUniqueSelect,
    UseEquipOptionSelect,
    UseHeroSelect,
    Unknown,
}

/// The endpoint an action name stands for.
pub open spec fn item_action_of(a: Seq<char>) -> ItemAction {
    if a == "break_rune"@ { ItemAction::BreakRune }
    else if a == "sell_item"@ { ItemAction::SellItem }
    else if a == "break_item"@ { ItemAction::BreakItem }
    else if a == "sell_equip"@ { ItemAction::SellEquip }
    else if a == "set_lock_equip_item"@ { ItemAction::LockEquip }
    else if a == "set_chest"@ { ItemAction::ToChest }
    else if a == "unset_chest"@ { ItemAction::FromChest }
    else if a == "extend_equip"@ { ItemAction::ExtendEquip }
    else if a == "extend_chest"@ { ItemAction::ExtendChest }
    else if a == "set_lock_rune_item"@ { ItemAction::LockRune }
    else if a == "use_booster_item"@ { ItemAction::UseBooster }
    else if a == "use_potion_item"@ { ItemAction::UsePotion }
    else if a == "use_package_item"@ { ItemAction::UsePackage }
    else if a == "use_package_select_item"@ { ItemAction::UsePackageSelect }
    else if a == "use_weapon_unique_select_item"@ { ItemAction::UseWeaponUniqueSelect }
    else if a == "use_equip_option_select_item"@ { ItemAction::UseEquipOptionSelect }
    else if a == "use_hero_select_item"@ { ItemAction::UseHeroSelect }
    else { ItemAction::Unknown }
}

/// Reads which endpoint an action name stands for.
pub fn item_action(a: &str) -> (r: ItemAction)
    ensures
        r == item_action_of(a@),
{
    if str_eq(a, "break_rune") { ItemAction::BreakRune }
    else if str_eq(a, "sell_item") { ItemAction::SellItem }
    else if str_eq(a, "break_item") { ItemAction::BreakItem }
    else if str_eq(a, "sell_equip") { ItemAction::SellEquip }
    else if str_eq(a, "set_lock_equip_item") { ItemAction::LockEquip }
    else if str_eq(a, "set_chest") { ItemAction::ToChest }
    else if str_eq(a, "unset_chest") { ItemAction::FromChest }
    else if str_eq(a, "extend_equip") { ItemAction::ExtendEquip }
    else if str_eq(a, "extend_chest") { ItemAction::ExtendChest }
    else if str_eq(a, "set_lock_rune_item") { ItemAction::LockRune }
    else if str_eq(a, "use_booster_item") { ItemAction::UseBooster }
    else if str_eq(a, "use_potion_item") { ItemAction::UsePotion }
    else if str_eq(a, "use_package_item") { ItemAction::UsePackage }
    else if str_eq(a, "use_package_select_item") { ItemAction::UsePackageSelect }
    else if str_eq(a, "use_weapon_unique_select_item") { ItemAction::UseWeaponUniqueSelect }
    else if str_eq(a, "use_equip_option_select_item") { ItemAction::UseEquipOptionSelect }
    else if str_eq(a, "use_hero_select_item") { ItemAction::UseHeroSelect }
    else { ItemAction::Unknown }
}

/// The lock flag to set on a rune: only runes (item type 2) can be locked
/// (`InvalidItemType`), and the flag is 0 or 1 (`Fail`).
pub fn rune_lock(item_type: i64, req: &Request) -> (r: Result<i64, ServerError>)
    ensures
        if item_type != 2 {
            r is Err && is_rule(r->Err_0, "InvalidItemType"@)
        } else {
            match req.number_of("Locked"@, 0) {
                None => r is Err && is_rule(r->Err_0, "InvalidValue"@),
                Some(v) => if v == 0 || v == 1 { r == Ok::<i64, ServerError>(v) } else { r is Err && is_rule(r->Err_0, "Fail"@) },
            }
        },
{
    if item_type != 2 {
        return Err(rule("InvalidItemType"));
    }
    let v = req.number("Locked", 0)?;
    if v != 0 && v != 1 {
        return Err(rule("Fail"));
    }
    Ok(v)
}

/// A booster of the booster table.
pub struct BoosterData {
    /// 1 for experience, 3 for gold.
    pub kind: i64,
    pub is_onetime: bool,
    /// Seconds of effect per item.
    pub duration: i64,
    pub value: i64,
    pub battle_types: Vec<i64>,
}

/// Refuses to use a booster item that the booster table lacks (`BoosterDataNotFound`) or
/// that works once only (`ItemTypeMismatch`).
pub fn booster_use_check(b: &Option<BoosterData>) -> (r: Result<(), ServerError>)
    ensures
        match *b {
            None => r is Err && is_rule(r->Err_0, "BoosterDataNotFound"@),
            Some(d) => if d.is_onetime { r is Err && is_rule(r->Err_0, "ItemTypeMismatch"@) } else { r is Ok },
        },
{
    match b {
        None => Err(rule("BoosterDataNotFound")),
        Some(d) => if d.is_onetime { Err(rule("ItemTypeMismatch")) } else { Ok(()) },
    }
}

/// How long `count` boosters run: an experience or gold booster that is not single-use
/// (`ItemTypeMismatch` otherwise), for its duration times `count` seconds, which must
/// be positive and at most a year (`Fail` otherwise).
pub fn booster_duration(b: &Option<BoosterData>, count: i32) -> (r: Result<i64, ServerError>)
    ensures
        match *b {
            None => r is Err && is_rule(r->Err_0, "BoosterDataNotFound"@),
            Some(d) => if !(d.kind == 1 || d.kind == 3) || d.is_onetime {
                r is Err && is_rule(r->Err_0, "ItemTypeMismatch"@)
            } else if !(0 < d.duration * count <= 31536000) {
                r is Err && is_rule(r->Err_0, "Fail"@)
            } else {
                r == Ok::<i64, ServerError>((d.duration * count) as i64)
            },
        },
{
    let d = match b {
        None => { return Err(rule("BoosterDataNotFound")); },
        Some(d) => d,
    };
    if !(d.kind == 1 || d.kind == 3) || d.is_onetime {
        return Err(rule("ItemTypeMismatch"));
    }
    let duration = match d.duration.checked_mul(count as i64) {
        Some(v) => v,
        None => { return Err(rule("Fail")); },
    };
    if duration <= 0 || duration > 31536000 {
        return Err(rule("Fail"));
    }
    Ok(duration)
}

/// True when a booster works in campaign battles (battle type 1).
pub open spec fn in_campaign(d: BoosterData) -> bool {
    d.battle_types@.contains(1)
}

/// The best gold and experience bonuses among the first `n` active boosters that work in
/// campaign battles (each bonus taken as `i32`).
pub open spec fn boost_of(active: Seq<i64>, boosters: Seq<(i64, BoosterData)>, n: int) -> (i32, i32)
    decreases n,
{
    if n <= 0 {
        (0i32, 0i32)
    } else {
        let acc = boost_of(active, boosters, n - 1);
        match crate::live::keyed(boosters, active[n - 1]) {
            None => acc,
            Some(j) => {
                let d = boosters[j].1;
                let v = d.value as i32;
                if !in_campaign(d) {
                    acc
                } else if d.kind == 1 {
                    (acc.0, if v > acc.1 { v } else { acc.1 })
                } else if d.kind == 3 {
                    (if v > acc.0 { v } else { acc.0 }, acc.1)
                } else {
                    acc
                }
            },
        }
    }
}

/// Only experience boosters (kind 1) raise the experience bonus and only gold boosters
/// (kind 3) the gold bonus: without an active campaign booster of a kind, its bonus is 0.
pub proof fn lemma_boost_kinds(active: Seq<i64>, boosters: Seq<(i64, BoosterData)>, n: int)
    ensures
        (forall|j: int| 0 <= j < boosters.len() ==> #[trigger] boosters[j].1.kind != 3)
            ==> boost_of(active, boosters, n).0 == 0,
        (forall|j: int| 0 <= j < boosters.len() ==> #[trigger] boosters[j].1.kind != 1)
            ==> boost_of(active, boosters, n).1 == 0,
        boost_of(active, boosters, n).0 >= 0 && boost_of(active, boosters, n).1 >= 0,
    decreases n,
{
    if n > 0 {
        lemma_boost_kinds(active, boosters, n - 1);
        crate::live::lemma_keyed_bounds(boosters, active[n - 1]);
    }
}

/// One active campaign booster gives its value (taken as `i32`, when positive) to the
/// bonus of its kind and nothing to the other: an experience booster (kind 1) gives
/// `(0, value)`, a gold booster (kind 3) gives `(value, 0)`.
pub proof fn lemma_one_booster(id: i64, d: BoosterData)
    requires
        in_campaign(d),
    ensures
        d.kind == 1 ==> boost_of(seq![id], seq![(id, d)], 1)
            == (0i32, if d.value as i32 > 0 { d.value as i32 } else { 0i32 }),
        d.kind == 3 ==> boost_of(seq![id], seq![(id, d)], 1)
            == (if d.value as i32 > 0 { d.value as i32 } else { 0i32 }, 0i32),
{
    let b = seq![(id, d)];
    assert(b.drop_last() =~= Seq::<(i64, BoosterData)>::empty());
    assert(b.last() == (id, d));
    reveal_with_fuel(crate::live::keyed, 2);
    assert(crate::live::keyed(b, id) == Some(0int));
    reveal_with_fuel(boost_of, 2);
    assert(seq![id][0] == id);
}

fn holds_one(v: &Vec<i64>) -> (r: bool)
    ensures
        r == v@.contains(1),
{
    let mut i: usize = 0;
    while i < v.len()
        invariant
            i <= v@.len(),
            forall|k: int| 0 <= k < i ==> v@[k] != 1,
        decreases v@.len() - i,
    {
        if v[i] == 1 {
            return true;
        }
        i = i + 1;
    }
    false
}

/// The gold and experience bonuses of the player's active boosters in campaign battles:
/// the best of each kind.
pub fn booster_boost(active: &Vec<i64>, boosters: &Vec<(i64, BoosterData)>) -> (r: (i32, i32))
    ensures
        r == boost_of(active@, boosters@, active@.len() as int),
{
    let mut gold: i32 = 0;
    let mut exp: i32 = 0;
    let mut i: usize = 0;
    while i < active.len()
        invariant
            i <= active@.len(),
            (gold, exp) == boost_of(active@, boosters@, i as int),
        decreases active@.len() - i,
    {
        match crate::live::find_keyed(boosters, active[i]) {
            None => {},
            Some(j) => {
                let d = &boosters[j].1;
                let v = #[verifier::truncate] (d.value as i32);
                if holds_one(&d.battle_types) {
                    if d.kind == 1 {
                        if v > exp { exp = v; }
                    } else if d.kind == 3 {
                        if v > gold { gold = v; }
                    }
                }
            },
        }
        i = i + 1;
    }
    (gold, exp)
}

/// One ability of a costume: its type, the name of its value (`BonusGold`, `BonusExp`,
/// ...) and the text of its amount.
pub struct CostumeAbility {
    pub ability_type: i64,
    pub name: String,
    pub amount: String,
}

/// The amount an ability gives: its text read as an `i32`, 0 when it is not one.
pub open spec fn ability_amount(a: CostumeAbility) -> int {
    match crate::text::bounded_decimal(a.amount@, i32::MIN as int, i32::MAX as int) {
        Some(v) => v,
        None => 0,
    }
}

/// The gold and experience bonuses of the first `n` abilities of owned costumes:
/// abilities of type 1 named `BonusGold` or `BonusExp` add their amounts.
pub open spec fn costume_sum(abilities: Seq<CostumeAbility>, n: int) -> (int, int)
    decreases n,
{
    if n <= 0 {
        (0, 0)
    } else {
        let acc = costume_sum(abilities, n - 1);
        let a = abilities[n - 1];
        if a.ability_type != 1 {
            acc
        } else if a.name@ == "BonusGold"@ {
            (acc.0 + ability_amount(a), acc.1)
        } else if a.name@ == "BonusExp"@ {
            (acc.0, acc.1 + ability_amount(a))
        } else {
            acc
        }
    }
}

/// True when every running total of the costume bonuses stays within `i32`.
pub open spec fn costume_sums_fit(abilities: Seq<CostumeAbility>) -> bool {
    forall|n: int| 0 <= n <= abilities.len() ==>
        i32::MIN <= #[trigger] costume_sum(abilities, n).0 <= i32::MAX && i32::MIN <= costume_sum(abilities, n).1 <= i32::MAX
}

/// The gold and experience bonuses of the abilities of the player's costumes.
pub fn costume_boost(abilities: &Vec<CostumeAbility>) -> (r: (i32, i32))
    requires
        costume_sums_fit(abilities@),
    ensures
        (r.0 as int, r.1 as int) == costume_sum(abilities@, abilities@.len() as int),
{
    let mut gold: i32 = 0;
    let mut exp: i32 = 0;
    let mut i: usize = 0;
    while i < abilities.len()
        invariant
            i <= abilities@.len(),
            costume_sums_fit(abilities@),
            (gold as int, exp as int) == costume_sum(abilities@, i as int),
        decreases abilities@.len() - i,
    {
        let a = &abilities[i];
        proof {
            assert(i32::MIN <= costume_sum(abilities@, i + 1).0 <= i32::MAX);
        }
        if a.ability_type == 1 {
            let amount = match crate::text::parse_i32(a.amount.as_str()) {
                Some(v) => v,
                None => 0,
            };
            if str_eq(a.name.as_str(), "BonusGold") {
                gold = gold + amount;
            } else if str_eq(a.name.as_str(), "BonusExp") {
                exp = exp + amount;
            }
        }
        i = i + 1;
    }
    (gold, exp)
}

/// The campaign bonuses: those of boosters and costumes added up.
pub fn campaign_boost(booster: (i32, i32), costume: (i32, i32)) -> (r: (i32, i32))
    requires
        i32::MIN <= booster.0 + costume.0 <= i32::MAX,
        i32::MIN <= booster.1 + costume.1 <= i32::MAX,
    ensures
        r.0 == booster.0 + costume.0,
        r.1 == booster.1 + costume.1,
{
    (booster.0 + costume.0, booster.1 + costume.1)
}

} // verus!

verus! {

/// The item a selection item picks (field `key`), once the selector is known: refused
/// with `missing` when the selector table lacks the item used.
pub fn select_target(found: bool, req: &Request, key: &str, missing: &str) -> (r: Result<i32, ServerError>)
    ensures
        !found ==> r is Err && is_rule(r->Err_0, missing@),
        found ==> match req.number_of(key@, 0) {
            None => r is Err && is_rule(r->Err_0, "InvalidValue"@),
            Some(v) => if i32::MIN <= v <= i32::MAX {
                r == Ok::<i32, ServerError>(v as i32)
            } else {
                r is Err && is_rule(r->Err_0, "ItemDataNotFound"@)
            },
        },
{
    if !found {
        return Err(rule(missing));
    }
    crate::inventory::item_index(req, key)
}

/// Refuses a pick that the selector does not list or that is not a reward of the right
/// kind (`is_kind`), with `refused`.
pub fn selection_check(choices: &Vec<i64>, selected: i32, is_kind: bool, refused: &str) -> (r: Result<(), ServerError>)
    ensures
        r is Ok <==> (choices@.contains(selected as i64) && is_kind),
        r is Err ==> is_rule(r->Err_0, refused@),
{
    let mut listed = false;
    let mut i: usize = 0;
    while i < choices.len()
        invariant
            i <= choices@.len(),
            listed <==> choices@.take(i as int).contains(selected as i64),
        decreases choices@.len() - i,
    {
        proof {
            let t0 = choices@.take(i as int);
            let t1 = choices@.take(i + 1);
            assert(t1 =~= t0.push(choices@[i as int]));
            if t1.contains(selected as i64) && !t0.contains(selected as i64) {
                let k = choose|k: int| 0 <= k < t1.len() && t1[k] == selected as i64;
                if k < i {
                    assert(t0[k] == selected as i64);
                }
            }
            if t0.contains(selected as i64) {
                let k = choose|k: int| 0 <= k < t0.len() && t0[k] == selected as i64;
                assert(t1[k] == selected as i64);
            }
            if choices@[i as int] == selected as i64 {
                assert(t1[i as int] == selected as i64);
            }
        }
        if choices[i] == selected as i64 {
            listed = true;
        }
        i = i + 1;
    }
    proof {
        assert(choices@.take(choices@.len() as int) =~= choices@);
    }
    if !listed || !is_kind {
        return Err(rule(refused));
    }
    Ok(())
}

/// The number of positive entries among the first `n` of `s`.
pub open spec fn positives(s: Seq<i64>, n: int) -> int
    decreases n,
{
    if n <= 0 { 0 } else { positives(s, n - 1) + if s[n - 1] > 0 { 1int } else { 0int } }
}

/// A JSON list of `i32` values in `text`.
pub open spec fn i32_list(text: Seq<char>) -> Option<Seq<i64>> {
    match json_int_array(text) {
        Some(v) => if all_within(v, i32::MIN as int, i32::MAX as int) { Some(v) } else { None },
        None => None,
    }
}

/// The outcome of the option choices of an option-selection item: the chosen options
/// (`EquipOptionIndices`), as many positive ones as the selector lets the player choose
/// (no more than the item has); and the extra options (`EquipExtraOptionIndices`, none
/// when empty), which only a selector of unique options accepts.
pub open spec fn option_choice_of(req: Request, select_count: i64, option_max: i64, select_unique: bool) -> Result<Seq<i64>, Seq<char>> {
    match i32_list(req.text_of("EquipOptionIndices"@)) {
        None => Err("NotCorrectOptionCount"@),
        Some(opts) => if positives(opts, opts.len() as int) != (if select_count < option_max { select_count } else { option_max }) {
            Err("NotCorrectOptionCount"@)
        } else {
            let extra_text = req.text_of("EquipExtraOptionIndices"@);
            if extra_text.len() == 0 {
                Ok(opts)
            } else {
                match i32_list(extra_text) {
                    None => Err("NoAvailableOption"@),
                    Some(extra) => if (exists|k: int| 0 <= k < extra.len() && extra[k] != 0) && !select_unique {
                        Err("NoAvailableOption"@)
                    } else {
                        Ok(opts)
                    },
                }
            }
        },
    }
}

fn parse_i32_list(text: &str) -> (r: Option<Vec<i64>>)
    ensures
        match i32_list(text@) {
            Some(v) => r is Some && r->0@ == v,
            None => r is None,
        },
{
    match crate::lists::int_array(text, "") {
        Err(_) => None,
        Ok(v) => if crate::lists::is_within(&v, i32::MIN as i64, i32::MAX as i64) { Some(v) } else { None },
    }
}

fn count_positive(s: &Vec<i64>) -> (r: usize)
    ensures
        r == positives(s@, s@.len() as int),
{
    let mut c: usize = 0;
    let mut i: usize = 0;
    let n = s.len();
    while i < n
        invariant
            n == s@.len(),
            i <= n,
            c == positives(s@, i as int),
            c <= i,
        decreases n - i,
    {
        if s[i] > 0 {
            c = c + 1;
        }
        i = i + 1;
    }
    c
}

/// Reads and checks the option choices of an option-selection item; see
/// `option_choice_of`.
pub fn option_choice(req: &Request, select_count: i64, option_max: i64, select_unique: bool) -> (r: Result<Vec<i64>, ServerError>)
    ensures
        match option_choice_of(*req, select_count, option_max, select_unique) {
            Ok(v) => r is Ok && r->Ok_0@ == v,
            Err(e) => r is Err && is_rule(r->Err_0, e),
        },
{
    let opts = match parse_i32_list(req.text("EquipOptionIndices")) {
        None => { return Err(rule("NotCorrectOptionCount")); },
        Some(v) => v,
    };
    let want = if select_count < option_max { select_count } else { option_max };
    if count_positive(&opts) as i128 != want as i128 {
        return Err(rule("NotCorrectOptionCount"));
    }
    let extra_text = req.text("EquipExtraOptionIndices");
    if extra_text.unicode_len() == 0 {
        return Ok(opts);
    }
    let extra = match parse_i32_list(extra_text) {
        None => { return Err(rule("NoAvailableOption")); },
        Some(v) => v,
    };
    let mut any = false;
    let mut i: usize = 0;
    while i < extra.len()
        invariant
            i <= extra@.len(),
            any <==> exists|k: int| 0 <= k < i && extra@[k] != 0,
        decreases extra@.len() - i,
    {
        if extra[i] != 0 {
            any = true;
        }
        i = i + 1;
    }
    if any && !select_unique {
        return Err(rule("NoAvailableOption"));
    }
    Ok(opts)
}

/// What a hero selector gives.
pub enum HeroSelect {
    /// The player owns every hero on offer and takes the selector's other reward.
    Other,
    /// The player gets the hero picked, at this level (at least 1).
    Hero { level: i64 },
}

/// True when the player asks for the other reward (`GetOtherReward` is `true` in any case,
/// or `1`).
pub open spec fn wants_other(req: Request) -> bool {
    crate::growth::says_true(req.text_of("GetOtherReward"@)) || req.text_of("GetOtherReward"@) == "1"@
}

/// The outcome of a hero selector whose heroes on offer are `choices` (none when the
/// selector lists none; an entry is none when it is not an integer) with ownership
/// `owned` (one flag per entry), for the pick `selected`, owned or not.
pub open spec fn hero_select_of(req: Request, choices: Option<Seq<Option<i64>>>, owned: Seq<bool>, selected: i32, selected_owned: bool, hero_level: i64) -> Result<HeroSelect, Seq<char>> {
    match choices {
        None => Err("HeroSelectDataNotFound"@),
        Some(cs) => if wants_other(req) {
            if exists|k: int| 0 <= k < cs.len() && !owned[k] {
                Err("AllHeroNotOwned"@)
            } else {
                Ok(HeroSelect::Other)
            }
        } else if !cs.contains(Some(selected as i64)) || selected_owned {
            Err("HeroNotSelectable"@)
        } else {
            Ok(HeroSelect::Hero { level: if hero_level > 1 { hero_level } else { 1 } })
        },
    }
}

/// Decides what a hero selector gives; see `hero_select_of`.
pub fn hero_select(req: &Request, choices: &Option<Vec<Option<i64>>>, owned: &Vec<bool>, selected: i32, selected_owned: bool, hero_level: i64) -> (r: Result<HeroSelect, ServerError>)
    requires
        choices matches Some(cs) ==> owned@.len() == cs@.len(),
    ensures
        match hero_select_of(*req, match *choices { Some(cs) => Some(cs@), None => None }, owned@, selected, selected_owned, hero_level) {
            Ok(v) => r == Ok::<HeroSelect, ServerError>(v),
            Err(e) => r is Err && is_rule(r->Err_0, e),
        },
{
    let cs = match choices {
        None => { return Err(rule("HeroSelectDataNotFound")); },
        Some(cs) => cs,
    };
    let text = req.text("GetOtherReward");
    proof {
        reveal_strlit("1");
    }
    if crate::growth::flag_true(text) || str_eq(text, "1") {
        proof {
            assert(wants_other(*req));
        }
        let mut i: usize = 0;
        while i < cs.len()
            invariant
                i <= cs@.len(),
                owned@.len() == cs@.len(),
                forall|k: int| 0 <= k < i ==> owned@[k],
                *choices == Some(*cs),
                wants_other(*req),
            decreases cs@.len() - i,
        {
            if !owned[i] {
                return Err(rule("AllHeroNotOwned"));
            }
            i = i + 1;
        }
        return Ok(HeroSelect::Other);
    }
    let mut listed = false;
    let mut i: usize = 0;
    while i < cs.len()
        invariant
            i <= cs@.len(),
            listed <==> exists|k: int| 0 <= k < i && cs@[k] == Some(selected as i64),
        decreases cs@.len() - i,
    {
        match cs[i] {
            Some(x) => if x == selected as i64 { listed = true; },
            None => {},
        }
        i = i + 1;
    }
    if !listed || selected_owned {
        return Err(rule("HeroNotSelectable"));
    }
    Ok(HeroSelect::Hero { level: if hero_level > 1 { hero_level } else { 1 } })
}

} // verus!

verus! {

/// True when a list field is empty: no text, `[]` or `null`.
pub open spec fn quiet_list(t: Seq<char>) -> bool {
    t == ""@ || t == "[]"@ || t == "null"@
}

/// The rune stacks a rune dismantling names: none when `ItemIndices` is empty, else the
/// items and counts combined as `merge_counts` combines them (with counts in `Counts`).
pub fn rune_batch(req: &Request) -> (r: Result<Vec<(i32, i32)>, ServerError>)
    ensures
        quiet_list(req.text_of("ItemIndices"@)) ==> r is Ok && r->Ok_0@.len() == 0,
        !quiet_list(req.text_of("ItemIndices"@)) ==> match (json_int_array(req.text_of("ItemIndices"@)), json_int_array(req.text_of("Counts"@))) {
            (Some(ids), Some(counts)) => crate::inventory::merged(ids, counts, r),
            _ => r is Err && is_rule(r->Err_0, "InvalidItemCount"@),
        },
{
    let t = req.text("ItemIndices");
    if str_eq(t, "") || str_eq(t, "[]") || str_eq(t, "null") {
        return Ok(Vec::new());
    }
    crate::inventory::pairs(req, "Counts")
}

/// One rune stack to dismantle, with what the tables and the inventory hold for it: the
/// item's type (none for an unknown item), the lock flag of the player's stack (none when
/// there is no stack), and whether the rune's grade has break drops.
pub struct RuneLine {
    pub item: i32,
    pub count: i32,
    pub item_type: Option<i64>,
    pub locked: Option<i32>,
    pub has_drops: bool,
}

/// The checks of one stack: at most 1000 runes (`InvalidItemCount`), a known item
/// (`ItemDataNotFound`) that is a rune (`InvalidItemType`), not locked
/// (`LockedItemExists`), whose grade has break drops (`NotBreakableItemExists`).
pub open spec fn rune_line_of(l: RuneLine) -> Result<(), Seq<char>> {
    if l.count > 1000 {
        Err("InvalidItemCount"@)
    } else {
        match l.item_type {
            None => Err("ItemDataNotFound"@),
            Some(t) => if t != 2 {
                Err("InvalidItemType"@)
            } else if l.locked == Some(1i32) {
                Err("LockedItemExists"@)
            } else if !l.has_drops {
                Err("NotBreakableItemExists"@)
            } else {
                Ok(())
            },
        }
    }
}

/// Checks one rune stack to dismantle; see `rune_line_of`.
pub fn rune_line_check(l: &RuneLine) -> (r: Result<(), ServerError>)
    ensures
        match rune_line_of(*l) {
            Ok(_) => r is Ok,
            Err(e) => r is Err && is_rule(r->Err_0, e),
        },
{
    if l.count > 1000 {
        return Err(rule("InvalidItemCount"));
    }
    match l.item_type {
        None => Err(rule("ItemDataNotFound")),
        Some(t) => if t != 2 {
            Err(rule("InvalidItemType"))
        } else if l.locked == Some(1i32) {
            Err(rule("LockedItemExists"))
        } else if !l.has_drops {
            Err(rule("NotBreakableItemExists"))
        } else {
            Ok(())
        },
    }
}

/// The bound on a drop's range that keeps the sum of 1000 draws within `i64`.
pub open spec fn drop_bound() -> int {
    0x20_0000_0000_0000
}

/// The sum of the draws.
pub open spec fn draws_sum(d: Seq<i64>) -> int
    decreases d.len(),
{
    if d.len() == 0 { 0 } else { draws_sum(d.drop_last()) + d.last() }
}

/// What one drop of dismantled runes answers for its draws: their sum, refused with
/// `InvalidItemCount` when it does not fit in `i32`.
pub open spec fn rune_drop_answer(d: Seq<i64>, r: Result<i32, ServerError>) -> bool {
    if i32::MIN <= draws_sum(d) <= i32::MAX {
        r == Ok::<i32, ServerError>(draws_sum(d) as i32)
    } else {
        r is Err && is_rule(r->Err_0, "InvalidItemCount"@)
    }
}

/// One drop of dismantled runes from the given draws, one per rune, as `rune_drop_answer`
/// says.
pub fn rune_drop_with(draws: &Vec<i64>) -> (r: Result<i32, ServerError>)
    requires
        draws@.len() <= 1000,
        forall|k: int| 0 <= k < draws@.len() ==> -drop_bound() <= #[trigger] draws@[k] <= drop_bound(),
    ensures
        rune_drop_answer(draws@, r),
{
    let mut total: i64 = 0;
    let mut k: usize = 0;
    while k < draws.len()
        invariant
            draws@.len() <= 1000,
            forall|j: int| 0 <= j < draws@.len() ==> -drop_bound() <= #[trigger] draws@[j] <= drop_bound(),
            k <= draws@.len(),
            total == draws_sum(draws@.take(k as int)),
            -(k as int) * drop_bound() <= total <= (k as int) * drop_bound(),
        decreases draws@.len() - k,
    {
        proof {
            assert(draws@.take(k + 1).drop_last() =~= draws@.take(k as int));
            assert(draws@.take(k + 1).last() == draws@[k as int]);
        }
        total = total + draws[k];
        k = k + 1;
    }
    proof {
        assert(draws@.take(draws@.len() as int) =~= draws@);
    }
    if total < i32::MIN as i64 || total > i32::MAX as i64 {
        return Err(rule("InvalidItemCount"));
    }
    Ok(total as i32)
}

/// Draws one drop of a dismantled stack of `count` runes: a draw from `min..=max` for each
/// rune, answered as `rune_drop_with` does.
pub fn rune_drop(min: i64, max: i64, count: i32) -> (r: Result<i32, ServerError>)
    requires
        min <= max,
        0 <= count <= 1000,
        -drop_bound() <= min,
        max <= drop_bound(),
    ensures
        exists|d: Seq<i64>| #![trigger rune_drop_answer(d, r)]
            d.len() == count && (forall|k: int| 0 <= k < d.len() ==> min <= #[trigger] d[k] <= max)
            && rune_drop_answer(d, r),
{
    let mut draws: Vec<i64> = Vec::new();
    let mut k: i32 = 0;
    while k < count
        invariant
            0 <= k <= count <= 1000,
            min <= max,
            -drop_bound() <= min,
            max <= drop_bound(),
            draws@.len() == k,
            forall|j: int| 0 <= j < draws@.len() ==> min <= #[trigger] draws@[j] <= max,
        decreases count - k,
    {
        let x = crate::dice::random_between(min, max);
        draws.push(x);
        k = k + 1;
    }
    let r = rune_drop_with(&draws);
    proof {
        assert(rune_drop_answer(draws@, r));
    }
    r
}

} // verus!
