//! Extension rules: accessory keys, currency codes, rune pages, storage slots, soul weapon
//! stats and equipment fitting.
use vstd::prelude::*;
use crate::error::{rule, is_rule, ServerError};
use vstd::string::StrSliceExecFns;

verus! {

/// The ownership key of an accessory on a hero: the hero in the high 32 bits, the
/// accessory in the low ones.
pub open spec fn accessory_key_of(hero: int, accessory: int) -> int {
    hero * 0x1_0000_0000 + accessory
}

/// The ownership key of an accessory on a hero, refused with `InvalidCostume` for a hero
/// index below 1 or an accessory outside `1..=i32::MAX`.
pub fn accessory_key(hero_id: i32, accessory: i64) -> (r: Result<i64, ServerError>)
    ensures
        hero_id <= 0 || !(1 <= accessory <= i32::MAX) ==> r is Err && is_rule(r->Err_0, "InvalidCostume"@),
        hero_id > 0 && 1 <= accessory <= i32::MAX ==> r == Ok::<i64, ServerError>(accessory_key_of(hero_id as int, accessory as int) as i64),
{
    if hero_id <= 0 || !(1 <= accessory && accessory <= i32::MAX as i64) {
        return Err(rule("InvalidCostume"));
    }
    let h = hero_id as i64;
    let key = (h << 32u64) | accessory;
    proof {
        assert((h << 32u64) | accessory == h * 0x1_0000_0000 + accessory) by (bit_vector)
            requires
                0 < h <= 0x7fff_ffff,
                0 < accessory <= 0x7fff_ffff;
    }
    Ok(key)
}

/// The currency a reward code names.
pub open spec fn currency_code(v: int) -> Option<Seq<char>> {
    if v == 1 { Some("Gold"@) }
    else if v == 2 { Some("Gem"@) }
    else if v == 3 { Some("Stamina"@) }
    else if v == 4 { Some("PvpCoin"@) }
    else if v == 6 { Some("Mileage"@) }
    else if v == 7 { Some("FriendshipPoint"@) }
    else if v == 8 { Some("GuildPoint"@) }
    else if v == 14 { Some("RaidPoint"@) }
    else { None }
}

/// The currency a reward code names, refused with `InvalidCurrencyType` for other codes.
pub fn currency_type(v: i64) -> (r: Result<&'static str, ServerError>)
    ensures
        match currency_code(v as int) {
            Some(n) => r is Ok && r->Ok_0@ == n,
            None => r is Err && is_rule(r->Err_0, "InvalidCurrencyType"@),
        },
{
    if v == 1 { Ok("Gold") }
    else if v == 2 { Ok("Gem") }
    else if v == 3 { Ok("Stamina") }
    else if v == 4 { Ok("PvpCoin") }
    else if v == 6 { Ok("Mileage") }
    else if v == 7 { Ok("FriendshipPoint") }
    else if v == 8 { Ok("GuildPoint") }
    else if v == 14 { Ok("RaidPoint") }
    else { Err(rule("InvalidCurrencyType")) }
}

/// One rune slot of a hero's rune page.
#[derive(Clone, Copy)]
pub struct RuneSlot {
    pub hero_index: i32,
    pub rune_page: i64,
    pub slot_num: i64,
    pub equip_item_slot_index: i64,
    pub item_index: i64,
}

/// A fresh rune page: empty slots numbered from 1 to `slots`.
pub fn new_page(hero: i32, page: i64, slots: i64) -> (r: Vec<RuneSlot>)
    requires
        slots < i64::MAX,
    ensures
        r@.len() == (if slots > 0 { slots as int } else { 0 }),
        forall|i: int| 0 <= i < r@.len() ==> #[trigger] r@[i] == (RuneSlot {
            hero_index: hero, rune_page: page, slot_num: (i + 1) as i64, equip_item_slot_index: 0, item_index: 0,
        }),
{
    let mut out: Vec<RuneSlot> = Vec::new();
    let mut slot: i64 = 1;
    while slot <= slots
        invariant
            1 <= slot,
            slots < i64::MAX,
            slots >= 1 ==> slot <= slots + 1,
            slots < 1 ==> slot == 1,
            out@.len() == slot - 1,
            forall|i: int| 0 <= i < out@.len() ==> #[trigger] out@[i] == (RuneSlot {
                hero_index: hero, rune_page: page, slot_num: (i + 1) as i64, equip_item_slot_index: 0, item_index: 0,
            }),
        decreases slots - slot + 1,
    {
        out.push(RuneSlot { hero_index: hero, rune_page: page, slot_num: slot, equip_item_slot_index: 0, item_index: 0 });
        slot = slot + 1;
    }
    out
}

/// An equipment storage slot: a named set of ten equipment slots.
pub struct StorageSlot {
    pub equip_storage_slot_index: i64,
    pub name: String,
    pub link_info: String,
    pub equip_item_slot_indices: Vec<i64>,
}

/// An empty storage slot: no name, no links, ten empty slots.
pub fn blank(index: i64) -> (r: StorageSlot)
    ensures
        r.equip_storage_slot_index == index,
        r.name@ == Seq::<char>::empty(),
        r.link_info@ == "[]"@,
        r.equip_item_slot_indices@ == Seq::new(10, |i: int| 0i64),
{
    proof {
        reveal_strlit("");
    }
    let slots = vec![0i64, 0, 0, 0, 0, 0, 0, 0, 0, 0];
    proof {
        assert(slots@ =~= Seq::new(10, |i: int| 0i64));
    }
    StorageSlot {
        equip_storage_slot_index: index,
        name: String::new(),
        link_info: String::from_str("[]"),
        equip_item_slot_indices: slots,
    }
}

/// What an equipment item's table row says of who may wear it.
pub struct EquipFit {
    pub part_type: i64,
    pub req_level: i64,
    /// The heroes allowed; empty for any.
    pub creature_indices: Vec<i64>,
    /// The hero tags allowed; empty for any.
    pub tag_types: Vec<i64>,
}

/// Why an item cannot go to slot `part` of a hero at `level` (`tag` is the hero's tag, or
/// none when the hero is not in the hero table).
pub open spec fn fit_error(fit: EquipFit, identified: i64, part: int, hero: int, level: int, tag: Option<i64>) -> Option<Seq<char>> {
    if fit.part_type != part || fit.req_level > level || identified == 0 {
        Some("InvalidEquipItem"@)
    } else if fit.creature_indices@.len() > 0 && !fit.creature_indices@.contains(hero as i64) {
        Some("NotCorrectHero"@)
    } else {
        match tag {
            None => Some("NoHero"@),
            Some(t) => if fit.tag_types@.len() > 0 && !fit.tag_types@.contains(t) {
                Some("NotCorrectHero"@)
            } else {
                None
            },
        }
    }
}

fn contains_i64(v: &Vec<i64>, x: i64) -> (r: bool)
    ensures
        r == v@.contains(x),
{
    let mut i: usize = 0;
    while i < v.len()
        invariant
            i <= v@.len(),
            forall|k: int| 0 <= k < i ==> v@[k] != x,
        decreases v@.len() - i,
    {
        if v[i] == x {
            proof {
                assert(v@[i as int] == x);
            }
            return true;
        }
        i = i + 1;
    }
    false
}

/// Checks that an item fits a hero's slot, as `fit_error` says.
pub fn compatible(fit: &EquipFit, identified: i64, part: i64, hero: i64, level: i64, tag: Option<i64>)
    -> (r: Result<(), ServerError>)
    ensures
        match fit_error(*fit, identified, part as int, hero as int, level as int, tag) {
            Some(e) => r is Err && is_rule(r->Err_0, e),
            None => r is Ok,
        },
{
    if fit.part_type != part || fit.req_level > level || identified == 0 {
        return Err(rule("InvalidEquipItem"));
    }
    if fit.creature_indices.len() > 0 && !contains_i64(&fit.creature_indices, hero) {
        return Err(rule("NotCorrectHero"));
    }
    match tag {
        None => Err(rule("NoHero")),
        Some(t) => {
            if fit.tag_types.len() > 0 && !contains_i64(&fit.tag_types, t) {
                Err(rule("NotCorrectHero"))
            } else {
                Ok(())
            }
        },
    }
}

/// Division rounding toward zero, as Rust divides integers.
pub open spec fn tdiv(a: int, b: int) -> int {
    if a >= 0 { a / b } else { -((-a) / b) }
}

fn tdiv_exec(a: i128, b: i128) -> (r: i128)
    requires
        b > 0,
        a > i128::MIN,
    ensures
        r == tdiv(a as int, b as int),
{
    if a >= 0 { a / b } else { -((-a) / b) }
}

/// A soul weapon's two options.
pub struct SoulOptions {
    pub ratios: (i64, i64),
    pub per_value: (i64, i64),
    pub bonus_ratios: (i64, i64),
}

/// The stat scale of a reinforce and an upgrade: both rates apply on a base of 1000.
pub open spec fn stat_factor(stat_rate: int, upgrade_rate: int) -> int {
    tdiv((1000 + stat_rate) * (1000 + upgrade_rate), 1000)
}

/// An option's stat: ratio times value per ratio, scaled, in thousandths of thousandths.
pub open spec fn option_stat(ratio: int, per_value: int, factor: int) -> int {
    tdiv(tdiv(ratio * per_value * factor, 1000), 1000)
}

/// True when every product of the stat formula fits in `i64`.
pub open spec fn stats_fit(o: SoulOptions, stat_rate: int, upgrade_rate: int) -> bool {
    let f = stat_factor(stat_rate, upgrade_rate);
    let b1 = option_stat(o.ratios.0 as int, o.per_value.0 as int, f);
    let b2 = option_stat(o.ratios.1 as int, o.per_value.1 as int, f);
    &&& i64::MIN <= 1000 + stat_rate <= i64::MAX
    &&& i64::MIN <= 1000 + upgrade_rate <= i64::MAX
    &&& i64::MIN <= (1000 + stat_rate) * (1000 + upgrade_rate) <= i64::MAX
    &&& i64::MIN <= o.ratios.0 * o.per_value.0 <= i64::MAX
    &&& i64::MIN <= o.ratios.0 * o.per_value.0 * f <= i64::MAX
    &&& i64::MIN <= o.ratios.1 * o.per_value.1 <= i64::MAX
    &&& i64::MIN <= o.ratios.1 * o.per_value.1 * f <= i64::MAX
    &&& i64::MIN <= b1 * o.bonus_ratios.0 <= i64::MAX
    &&& i64::MIN <= b2 * o.bonus_ratios.1 <= i64::MAX
}

/// A soul weapon's `(option stat, bonus option stat)` of each option for its reinforce and
/// upgrade rates: the bonus stat is the option stat times the bonus ratio, in thousandths.
pub open spec fn soul_stat_values(o: SoulOptions, stat_rate: int, upgrade_rate: int) -> ((i64, i64), (i64, i64)) {
    let f = stat_factor(stat_rate, upgrade_rate);
    let b1 = option_stat(o.ratios.0 as int, o.per_value.0 as int, f);
    let b2 = option_stat(o.ratios.1 as int, o.per_value.1 as int, f);
    ((b1 as i64, tdiv(b1 * o.bonus_ratios.0, 1000) as i64), (b2 as i64, tdiv(b2 * o.bonus_ratios.1, 1000) as i64))
}

/// A soul weapon's option stats and bonus stats for its reinforce and upgrade rates.
pub fn stats(o: &SoulOptions, stat_rate: i64, upgrade_rate: i64) -> (r: ((i64, i64), (i64, i64)))
    requires
        stats_fit(*o, stat_rate as int, upgrade_rate as int),
    ensures
        r == soul_stat_values(*o, stat_rate as int, upgrade_rate as int),
{
    let a = 1000 + stat_rate as i128;
    let b = 1000 + upgrade_rate as i128;
    proof {
        assert(-0x4000_0000_0000_0000_0000_0000_0000_0000 < a * b < 0x4000_0000_0000_0000_0000_0000_0000_0000) by (nonlinear_arith)
            requires
                i64::MIN <= a * b <= i64::MAX;
    }
    let f = tdiv_exec(a * b, 1000);
    let p1 = (o.ratios.0 as i128) * (o.per_value.0 as i128);
    let p2 = (o.ratios.1 as i128) * (o.per_value.1 as i128);
    proof {
        assert(-0x4000_0000_0000_0000_0000_0000_0000_0000 < p1 * f < 0x4000_0000_0000_0000_0000_0000_0000_0000) by (nonlinear_arith)
            requires
                i64::MIN <= p1 * f <= i64::MAX;
        assert(-0x4000_0000_0000_0000_0000_0000_0000_0000 < p2 * f < 0x4000_0000_0000_0000_0000_0000_0000_0000) by (nonlinear_arith)
            requires
                i64::MIN <= p2 * f <= i64::MAX;
    }
    let b1 = tdiv_exec(tdiv_exec(p1 * f, 1000), 1000);
    let b2 = tdiv_exec(tdiv_exec(p2 * f, 1000), 1000);
    let k1 = tdiv_exec(b1 * (o.bonus_ratios.0 as i128), 1000);
    let k2 = tdiv_exec(b2 * (o.bonus_ratios.1 as i128), 1000);
    ((b1 as i64, k1 as i64), (b2 as i64, k2 as i64))
}

/// The value of the first entry keyed `id`.
pub open spec fn keyed_value<T>(s: Seq<(i64, T)>, id: i64) -> Option<T> {
    match crate::live::keyed(s, id) {
        Some(i) => Some(s[i].1),
        None => None,
    }
}

/// The tables a soul weapon's stats are read from.
pub struct SoulTables {
    /// `(ItemIndex, first TagType or 0)` of each equipment item.
    pub items: Vec<(i64, i64)>,
    /// `(TagType, (OptionRatioPerValue1, OptionRatioPerValue2))` of each soul weapon option.
    pub options: Vec<(i64, (i64, i64))>,
    /// `(ReinforceLevel, StatRate)`.
    pub reinforces: Vec<(i64, i64)>,
    /// `(Grade, UpgradeRate)`.
    pub upgrades: Vec<(i64, i64)>,
}

/// The values per ratio, stat rate and upgrade rate a soul weapon's rows give: the item's
/// row, the option row of its tag, the reinforce row of its level and the upgrade row of
/// its grade; none when one of them is missing.
pub open spec fn soul_rates(t: SoulTables, item: i64, level: i64, grade: i64) -> Option<((i64, i64), i64, i64)> {
    match keyed_value(t.items@, item) {
        None => None,
        Some(tag) => match keyed_value(t.options@, tag) {
            None => None,
            Some(pv) => match keyed_value(t.reinforces@, level) {
                None => None,
                Some(sr) => match keyed_value(t.upgrades@, grade) {
                    None => None,
                    Some(ur) => Some((pv, sr, ur)),
                },
            },
        },
    }
}

fn lookup<T: Copy>(s: &Vec<(i64, T)>, id: i64) -> (r: Option<T>)
    ensures
        r == keyed_value(s@, id),
{
    match crate::live::find_keyed(s, id) {
        Some(k) => Some(s[k].1),
        None => None,
    }
}

/// A soul weapon's option stats and bonus stats, its rows looked up by item index, reinforce
/// level and grade; refused with `ItemDataNotFound` when a row is missing.
pub fn soul_stats(t: &SoulTables, item: i64, level: i64, grade: i64, ratios: (i64, i64), bonus_ratios: (i64, i64))
    -> (r: Result<((i64, i64), (i64, i64)), ServerError>)
    requires
        soul_rates(*t, item, level, grade) matches Some(x)
            ==> stats_fit((SoulOptions { ratios, per_value: x.0, bonus_ratios }), x.1 as int, x.2 as int),
    ensures
        match soul_rates(*t, item, level, grade) {
            None => r is Err && is_rule(r->Err_0, "ItemDataNotFound"@),
            Some(x) => r == Ok::<((i64, i64), (i64, i64)), ServerError>(
                soul_stat_values((SoulOptions { ratios, per_value: x.0, bonus_ratios }), x.1 as int, x.2 as int)),
        },
{
    let tag = match lookup(&t.items, item) {
        Some(v) => v,
        None => { return Err(rule("ItemDataNotFound")); },
    };
    let per_value = match lookup(&t.options, tag) {
        Some(v) => v,
        None => { return Err(rule("ItemDataNotFound")); },
    };
    let stat_rate = match lookup(&t.reinforces, level) {
        Some(v) => v,
        None => { return Err(rule("ItemDataNotFound")); },
    };
    let upgrade_rate = match lookup(&t.upgrades, grade) {
        Some(v) => v,
        None => { return Err(rule("ItemDataNotFound")); },
    };
    Ok(stats(&SoulOptions { ratios, per_value, bonus_ratios }, stat_rate, upgrade_rate))
}

/// Checks that an item fits a hero's slot with its rows looked up: the item's row in `fits`
/// (refused with `ItemDataNotFound` when missing) and the hero's tag in `hero_tags`
/// `(HeroIndex, TagType)`; then as `compatible` does.
pub fn compatible_in(fits: &Vec<(i64, EquipFit)>, hero_tags: &Vec<(i64, i64)>, item: i64, identified: i64,
    part: i64, hero: i64, level: i64) -> (r: Result<(), ServerError>)
    ensures
        match keyed_value(fits@, item) {
            None => r is Err && is_rule(r->Err_0, "ItemDataNotFound"@),
            Some(fit) => match fit_error(fit, identified, part as int, hero as int, level as int, keyed_value(hero_tags@, hero)) {
                Some(e) => r is Err && is_rule(r->Err_0, e),
                None => r is Ok,
            },
        },
{
    let k = match crate::live::find_keyed(fits, item) {
        Some(k) => k,
        None => { return Err(rule("ItemDataNotFound")); },
    };
    let tag = lookup(hero_tags, hero);
    compatible(&fits[k].1, identified, part, hero, level, tag)
}

/// The currency a shop cost code names.
pub open spec fn cost_kind(cost: int) -> Option<Seq<char>> {
    if cost == 1 { Some("Gold"@) }
    else if cost == 2 { Some("Gem"@) }
    else if cost == 3 { Some("PvpCoin"@) }
    else if cost == 4 { Some("GuildPoint"@) }
    else if cost == 5 { Some("RoyalPoint"@) }
    else if cost == 6 { Some("Mileage"@) }
    else if cost == 7 { Some("FriendshipPoint"@) }
    else if cost == 8 { Some("RaidPoint"@) }
    else if cost == 17 { Some("GuildArenaPoint"@) }
    else { None }
}

/// The currency a shop cost code names, refused with `InvalidCost` for other codes.
pub fn kind(cost: i64) -> (r: Result<&'static str, ServerError>)
    ensures
        match cost_kind(cost as int) {
            Some(n) => r is Ok && r->Ok_0@ == n,
            None => r is Err && is_rule(r->Err_0, "InvalidCost"@),
        },
{
    if cost == 1 { Ok("Gold") }
    else if cost == 2 { Ok("Gem") }
    else if cost == 3 { Ok("PvpCoin") }
    else if cost == 4 { Ok("GuildPoint") }
    else if cost == 5 { Ok("RoyalPoint") }
    else if cost == 6 { Ok("Mileage") }
    else if cost == 7 { Ok("FriendshipPoint") }
    else if cost == 8 { Ok("RaidPoint") }
    else if cost == 17 { Ok("GuildArenaPoint") }
    else { Err(rule("InvalidCost")) }
}

} // verus!

verus! {

/// The identifiers of a list field of an extension request: an empty field is the empty
/// list; otherwise a JSON list of at most 100 positive identifiers without repeats.
pub open spec fn slot_ids_of(t: Seq<char>) -> Option<Seq<i64>> {
    if t.len() == 0 {
        Some(Seq::<i64>::empty())
    } else {
        match crate::lists::json_int_array(t) {
            None => None,
            Some(v) => if v.len() > 100 || (exists|i: int| 0 <= i < v.len() && #[trigger] v[i] <= 0) || !crate::lists::distinct(v) {
                None
            } else {
                Some(v)
            },
        }
    }
}

/// Reads an identifier list field, refused with `InvalidItemCount` when `slot_ids_of`
/// gives none.
pub fn slot_ids(req: &crate::forms::Request, key: &str) -> (r: Result<Vec<i64>, ServerError>)
    ensures
        match slot_ids_of(req.text_of(key@)) {
            Some(v) => r is Ok && r->Ok_0@ == v,
            None => r is Err && is_rule(r->Err_0, "InvalidItemCount"@),
        },
{
    let text = req.text(key);
    if text.unicode_len() == 0 {
        proof {
            assert(Seq::<i64>::empty() =~= Seq::empty());
        }
        return Ok(Vec::new());
    }
    let v = crate::lists::int_array(text, "InvalidItemCount")?;
    if v.len() > 100 {
        return Err(rule("InvalidItemCount"));
    }
    let mut i: usize = 0;
    while i < v.len()
        invariant
            i <= v@.len(),
            v@.len() <= 100,
            req.text_of(key@).len() > 0,
            crate::lists::json_int_array(req.text_of(key@)) == Some(v@),
            forall|k: int| 0 <= k < i ==> v@[k] > 0,
        decreases v@.len() - i,
    {
        if v[i] <= 0 {
            proof {
                assert(v@[i as int] <= 0);
            }
            return Err(rule("InvalidItemCount"));
        }
        i = i + 1;
    }
    if !crate::lists::is_distinct(&v) {
        return Err(rule("InvalidItemCount"));
    }
    Ok(v)
}

} // verus!

verus! {

/// True when `t` occurs in `s`.
pub open spec fn has_text(s: Seq<char>, t: Seq<char>) -> bool {
    exists|i: int| 0 <= i && i + t.len() <= s.len() && #[trigger] s.subrange(i, i + t.len()) == t
}

fn contains_text(s: &str, t: &str) -> (r: bool)
    ensures
        r == has_text(s@, t@),
{
    let n = s.unicode_len();
    let m = t.unicode_len();
    if m > n {
        proof {
            assert forall|i: int| 0 <= i && i + t@.len() <= s@.len() implies #[trigger] s@.subrange(i, i + t@.len()) != t@ by {}
        }
        return false;
    }
    let mut i: usize = 0;
    while i <= n - m
        invariant
            n == s@.len(),
            m == t@.len(),
            m <= n,
            i <= n - m + 1,
            forall|k: int| 0 <= k < i ==> #[trigger] s@.subrange(k, k + m) != t@,
        decreases n - m + 1 - i,
    {
        let mut j: usize = 0;
        let mut same = true;
        while j < m
            invariant
                n == s@.len(),
                m == t@.len(),
                i + m <= n,
                j <= m,
                same == forall|q: int| 0 <= q < j ==> s@[i + q] == t@[q],
            decreases m - j,
        {
            if s.get_char(i + j) != t.get_char(j) {
                same = false;
            }
            j = j + 1;
        }
        if same {
            proof {
                assert(s@.subrange(i as int, i + m) =~= t@);
            }
            return true;
        }
        proof {
            let q = choose|q: int| 0 <= q < m && s@[i + q] != t@[q];
            assert(s@.subrange(i as int, i + m)[q] != t@[q]);
        }
        i = i + 1;
    }
    proof {
        assert forall|k: int| 0 <= k && k + t@.len() <= s@.len() implies #[trigger] s@.subrange(k, k + t@.len()) != t@ by {
            assert(k < i);
        }
    }
    false
}

/// The service that handles an extension request.
#[derive(PartialEq, Eq, Structural, Clone, Copy)]
pub enum ExtensionFamily {
    Punishment,
    Consumables,
    Buffs,
    Storage,
    Cosmetics,
    Valance,
    Runes,
    Npc,
    Soul,
    Equipment,
}

/// The service for action `a` (the last part of the path; `item` when the path starts
/// with `/item/`), tried in this order: punishment runes, item consumables, class and team
/// buffs, equipment storage, cosmetics, valance items, rune pages, NPC friendship, soul
/// weapons, and the equipment service for the rest.
pub open spec fn family_of(item: bool, a: Seq<char>) -> ExtensionFamily {
    if a == "craft_punishment_rune"@ || a == "extend_punishment_rune_storage_slot"@ {
        ExtensionFamily::Punishment
    } else if item {
        ExtensionFamily::Consumables
    } else if has_text(a, "class_buff"@) || a == "reinforce_team_level_buff"@ {
        ExtensionFamily::Buffs
    } else if has_text(a, "equip_storage_slot"@) {
        ExtensionFamily::Storage
    } else if a == "buy_customizing_costumes"@ || a == "edit_accessory_costume_position"@ || a == "reset_all_customizing_costumes"@ {
        ExtensionFamily::Cosmetics
    } else if has_text(a, "valance"@) {
        ExtensionFamily::Valance
    } else if a == "equip_rune"@ || a == "unequip_rune"@ || a == "extend_rune_page"@ || a == "apply_hero_rune_page"@ {
        ExtensionFamily::Runes
    } else if a == "give_gift_item"@ || a == "recv_reward_friendly_point"@ {
        ExtensionFamily::Npc
    } else if has_text(a, "soul_"@) {
        ExtensionFamily::Soul
    } else {
        ExtensionFamily::Equipment
    }
}

/// Routes an extension request; see `family_of`.
pub fn extension_family(item: bool, a: &str) -> (r: ExtensionFamily)
    ensures
        r == family_of(item, a@),
{
    if crate::text::str_eq(a, "craft_punishment_rune") || crate::text::str_eq(a, "extend_punishment_rune_storage_slot") {
        ExtensionFamily::Punishment
    } else if item {
        ExtensionFamily::Consumables
    } else if contains_text(a, "class_buff") || crate::text::str_eq(a, "reinforce_team_level_buff") {
        ExtensionFamily::Buffs
    } else if contains_text(a, "equip_storage_slot") {
        ExtensionFamily::Storage
    } else if crate::text::str_eq(a, "buy_customizing_costumes") || crate::text::str_eq(a, "edit_accessory_costume_position") || crate::text::str_eq(a, "reset_all_customizing_costumes") {
        ExtensionFamily::Cosmetics
    } else if contains_text(a, "valance") {
        ExtensionFamily::Valance
    } else if crate::text::str_eq(a, "equip_rune") || crate::text::str_eq(a, "unequip_rune") || crate::text::str_eq(a, "extend_rune_page") || crate::text::str_eq(a, "apply_hero_rune_page") {
        ExtensionFamily::Runes
    } else if crate::text::str_eq(a, "give_gift_item") || crate::text::str_eq(a, "recv_reward_friendly_point") {
        ExtensionFamily::Npc
    } else if contains_text(a, "soul_") {
        ExtensionFamily::Soul
    } else {
        ExtensionFamily::Equipment
    }
}

/// Checks that an item can serve as material: not locked (`LockedEquip`); not worn, not
/// waiting for an option choice and not in a storage set (`EquippedItem`); and without a
/// soul weapon (`InvalidMaterial`).
pub fn material_check(locked: bool, worn: bool, pending: bool, stored: bool, soul: bool) -> (r: Result<(), ServerError>)
    ensures
        locked ==> r is Err && is_rule(r->Err_0, "LockedEquip"@),
        !locked && (worn || pending || stored) ==> r is Err && is_rule(r->Err_0, "EquippedItem"@),
        !locked && !(worn || pending || stored) && soul ==> r is Err && is_rule(r->Err_0, "InvalidMaterial"@),
        !locked && !(worn || pending || stored) && !soul ==> r is Ok,
{
    if locked {
        return Err(rule("LockedEquip"));
    }
    if worn || pending || stored {
        return Err(rule("EquippedItem"));
    }
    if soul {
        return Err(rule("InvalidMaterial"));
    }
    Ok(())
}

/// How many storage slots the player bought: those past the first four.
pub fn storage_extend_count(slots: usize) -> (r: i64)
    requires
        slots <= i64::MAX,
    ensures
        r == (if slots > 4 { slots - 4 } else { 0 }),
{
    if slots > 4 { (slots - 4) as i64 } else { 0 }
}

} // verus!
