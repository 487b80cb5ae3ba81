//! Buying heroes, bookmarks and the team avatar.
use vstd::prelude::*;
use crate::error::{rule, is_rule, ServerError};
use crate::forms::Request;

verus! {

/// A hero as the client shows it.
pub struct HeroInfo {
    pub hero_id: i64,
    pub hero_index: i32,
    pub star: i32,
    pub level: i32,
    pub exp: i64,
    pub transcend: i32,
    pub awakened: i32,
    pub skill_level_1: i32,
    pub skill_level_2: i32,
    pub skill_level_3: i32,
    pub skill_level_4: i32,
    pub unique_weapon_id: i64,
    pub is_bookmarked: bool,
    pub closeness: i32,
    pub transcend_skill_point: i32,
    pub equip_item_slot_index_1: i64,
    pub equip_item_slot_index_2: i64,
    pub equip_item_slot_index_3: i64,
    pub equip_item_slot_index_4: i64,
    pub equip_item_slot_index_5: i64,
    pub equip_item_slot_index_6: i64,
    pub equip_item_slot_index_7: i64,
    pub equip_item_slot_index_8: i64,
    pub equip_item_slot_index_9: i64,
    pub equip_item_slot_index_10: i64,
}

} // verus!

verus! {

/// A balance change as the typed handlers report one: currency 2 is gems.
pub struct CurrencyResultInfo {
    pub currency_type: i32,
    pub before_value: i64,
    pub after_value: i64,
    pub change_value: i64,
}

pub struct BuyHeroRequest {
    pub session_id: Option<String>,
    pub hero_index: Option<i32>,
}

/// `result` 1: already owned; 2: not enough gems; 0: bought.
pub struct BuyHeroResponse {
    pub base_result: i32,
    pub result: i32,
    pub hero_info: Option<HeroInfo>,
    pub currency_result: Option<CurrencyResultInfo>,
}

pub struct BookmarkHeroRequest {
    pub session_id: Option<String>,
    pub hero_id: Option<i64>,
    pub is_bookmarked: Option<bool>,
}

pub struct BookmarkHeroResponse {
    pub base_result: i32,
    pub result: i32,
}

pub struct ChangeAvatarHeroRequest {
    pub session_id: Option<String>,
    pub hero_index: Option<i32>,
}

pub struct ChangeAvatarHeroResponse {
    pub base_result: i32,
    pub result: i32,
}

/// The gem price of a hero.
pub open spec fn hero_price() -> int {
    6000
}

/// A required number of a request, refused as a bad request naming `what` when missing.
pub fn required<T>(v: Option<T>, what: &str) -> (r: Result<T, crate::error::ServerError>)
    ensures
        v is Some ==> r is Ok && r->Ok_0 == v->0,
        v is None ==> r is Err && r->Err_0 is InvalidRequest,
{
    match v {
        Some(x) => Ok(x),
        None => {
            let mut m = String::from_str("Missing ");
            m.append(what);
            Err(crate::error::ServerError::InvalidRequest(m))
        },
    }
}

/// What buying a hero changes: the gems left, when the purchase goes ahead.
pub enum BuyHeroPlan {
    /// Refused with this result code.
    Refused(i32),
    /// Bought: the gem balance becomes `new_gem`.
    Buy { new_gem: i32 },
}

/// Decides a hero purchase: 1 when the hero is owned, 2 when fewer than 6000 gems are held;
/// otherwise the gems are paid.
pub fn buy_hero_check(owned: bool, gem: i32) -> (r: BuyHeroPlan)
    ensures
        owned ==> r == BuyHeroPlan::Refused(1),
        !owned && gem < hero_price() ==> r == BuyHeroPlan::Refused(2),
        !owned && gem >= hero_price() ==> r == (BuyHeroPlan::Buy { new_gem: (gem - hero_price()) as i32 }),
{
    if owned {
        return BuyHeroPlan::Refused(1);
    }
    if gem < 6000 {
        return BuyHeroPlan::Refused(2);
    }
    BuyHeroPlan::Buy { new_gem: gem - 6000 }
}

/// The answer to a purchase: a refusal carries only its code; a purchase shows the new
/// two-star level-1 hero and the gems paid.
pub fn buy_hero_response(plan: &BuyHeroPlan, gem: i32, hero_id: i64, hero_index: i32) -> (r: BuyHeroResponse)
    ensures
        r.base_result == crate::mail::BASE_SUCCESS,
        match *plan {
            BuyHeroPlan::Refused(code) => r.result == code && r.hero_info is None && r.currency_result is None,
            BuyHeroPlan::Buy { new_gem } => r.result == 0
                && r.hero_info is Some && r.hero_info->0.hero_id == hero_id && r.hero_info->0.hero_index == hero_index
                && r.hero_info->0.star == 2 && r.hero_info->0.level == 1
                && r.currency_result == Some((CurrencyResultInfo {
                    currency_type: 2, before_value: gem as i64, after_value: new_gem as i64, change_value: -6000i64,
                })),
        },
{
    match plan {
        BuyHeroPlan::Refused(code) => BuyHeroResponse {
            base_result: crate::mail::BASE_SUCCESS, result: *code, hero_info: None, currency_result: None,
        },
        BuyHeroPlan::Buy { new_gem } => BuyHeroResponse {
            base_result: crate::mail::BASE_SUCCESS,
            result: 0,
            hero_info: Some(HeroInfo {
                hero_id, hero_index, star: 2, level: 1, exp: 0, transcend: 0, awakened: 0,
                skill_level_1: 0, skill_level_2: 0, skill_level_3: 0, skill_level_4: 0,
                unique_weapon_id: 0, is_bookmarked: false, closeness: 0, transcend_skill_point: 0,
                equip_item_slot_index_1: 0, equip_item_slot_index_2: 0, equip_item_slot_index_3: 0,
                equip_item_slot_index_4: 0, equip_item_slot_index_5: 0, equip_item_slot_index_6: 0,
                equip_item_slot_index_7: 0, equip_item_slot_index_8: 0, equip_item_slot_index_9: 0,
                equip_item_slot_index_10: 0,
            }),
            currency_result: Some(CurrencyResultInfo {
                currency_type: 2, before_value: gem as i64, after_value: *new_gem as i64, change_value: -6000,
            }),
        },
    }
}

/// A hero of the hero shop table.
pub struct ShopHeroRow {
    pub hero_index: i32,
    pub buyable: bool,
    pub start_hero_star: i64,
    pub start_hero_level: i64,
    pub open_status: i64,
}

/// What the item table says of a reward item that grants a hero.
pub struct HeroItemRow {
    pub item_index: i32,
    /// True when the item's kind is `Hero`.
    pub is_hero: bool,
    pub hero_index: i32,
    pub star: i64,
    pub transcend: i64,
    pub level: i64,
}

/// A row of the hero price table.
pub struct HeroPriceRow {
    pub star: i64,
    pub open_status: i64,
    pub buy_gem: i64,
    pub mileage: i64,
}

/// The first shop row of hero `index`.
pub open spec fn shop_hero(rows: Seq<ShopHeroRow>, index: i32) -> Option<ShopHeroRow>
    decreases rows.len(),
{
    if rows.len() == 0 {
        None
    } else if rows[0].hero_index == index {
        Some(rows[0])
    } else {
        shop_hero(rows.drop_first(), index)
    }
}

/// The first item row of item `id`.
pub open spec fn hero_item(rows: Seq<HeroItemRow>, id: i32) -> Option<HeroItemRow>
    decreases rows.len(),
{
    if rows.len() == 0 {
        None
    } else if rows[0].item_index == id {
        Some(rows[0])
    } else {
        hero_item(rows.drop_first(), id)
    }
}

/// The first price row of a star and an open status.
pub open spec fn hero_price_row(rows: Seq<HeroPriceRow>, star: i64, open_status: i64) -> Option<HeroPriceRow>
    decreases rows.len(),
{
    if rows.len() == 0 {
        None
    } else if rows[0].star == star && rows[0].open_status == open_status {
        Some(rows[0])
    } else {
        hero_price_row(rows.drop_first(), star, open_status)
    }
}

fn find_shop_hero(rows: &Vec<ShopHeroRow>, index: i32) -> (r: Option<usize>)
    ensures
        match shop_hero(rows@, index) {
            Some(h) => r is Some && r->0 < rows@.len() && rows@[r->0 as int] == h,
            None => r is None,
        },
{
    let mut i: usize = 0;
    proof {
        assert(rows@.skip(0) =~= rows@);
    }
    while i < rows.len()
        invariant
            i <= rows@.len(),
            shop_hero(rows@, index) == shop_hero(rows@.skip(i as int), index),
        decreases rows@.len() - i,
    {
        proof {
            assert(rows@.skip(i as int).drop_first() =~= rows@.skip(i + 1));
        }
        if rows[i].hero_index == index {
            return Some(i);
        }
        i = i + 1;
    }
    None
}

fn find_hero_item(rows: &Vec<HeroItemRow>, id: i32) -> (r: Option<usize>)
    ensures
        match hero_item(rows@, id) {
            Some(h) => r is Some && r->0 < rows@.len() && rows@[r->0 as int] == h,
            None => r is None,
        },
{
    let mut i: usize = 0;
    proof {
        assert(rows@.skip(0) =~= rows@);
    }
    while i < rows.len()
        invariant
            i <= rows@.len(),
            hero_item(rows@, id) == hero_item(rows@.skip(i as int), id),
        decreases rows@.len() - i,
    {
        proof {
            assert(rows@.skip(i as int).drop_first() =~= rows@.skip(i + 1));
        }
        if rows[i].item_index == id {
            return Some(i);
        }
        i = i + 1;
    }
    None
}

fn find_hero_price(rows: &Vec<HeroPriceRow>, star: i64, open_status: i64) -> (r: Option<usize>)
    ensures
        match hero_price_row(rows@, star, open_status) {
            Some(h) => r is Some && r->0 < rows@.len() && rows@[r->0 as int] == h,
            None => r is None,
        },
{
    let mut i: usize = 0;
    proof {
        assert(rows@.skip(0) =~= rows@);
    }
    while i < rows.len()
        invariant
            i <= rows@.len(),
            hero_price_row(rows@, star, open_status) == hero_price_row(rows@.skip(i as int), star, open_status),
        decreases rows@.len() - i,
    {
        proof {
            assert(rows@.skip(i as int).drop_first() =~= rows@.skip(i + 1));
        }
        if rows[i].star == star && rows[i].open_status == open_status {
            return Some(i);
        }
        i = i + 1;
    }
    None
}

/// A hero purchase the shop accepts: the hero, the item that grants it, the gems paid and
/// the mileage earned.
pub struct HeroPurchase {
    pub hero_index: i32,
    pub item_index: i32,
    pub gem: i64,
    pub mileage: i64,
}

/// True when a reward item grants exactly the shop's starting hero: a `Hero` item of that
/// hero at its start star, untranscended, at its start level (at least 1).
pub open spec fn grants_start_hero(m: HeroItemRow, c: ShopHeroRow) -> bool {
    &&& m.is_hero
    &&& m.hero_index == c.hero_index
    &&& m.star == c.start_hero_star
    &&& m.transcend == 0
    &&& m.level == (if c.start_hero_level > 1 { c.start_hero_level } else { 1 })
}

/// Checks a hero purchase from the hero shop: the hero (`HeroIndex`) must be in the shop
/// (`CreatureDataNotFound`) and for sale (`InvalidItemData`); the item (`ItemIndex`) must
/// grant exactly its starting hero (`InvalidItemIndex`); the hero must not be owned
/// (`HeroAlreadyExist`); its start star and open status must have a price
/// (`InvalidItemData`), a positive gem price that the request's `BuyGem` repeats
/// (`InvalidPrice`).
pub fn shop_buy_hero(req: &Request, heroes: &Vec<ShopHeroRow>, items: &Vec<HeroItemRow>,
    prices: &Vec<HeroPriceRow>, owned: &Vec<i32>) -> (r: Result<HeroPurchase, ServerError>)
    ensures
        match req.number_of("HeroIndex"@, 0) {
            None => r is Err && is_rule(r->Err_0, "InvalidValue"@),
            Some(hv) => if !(i32::MIN <= hv <= i32::MAX) {
                r is Err && is_rule(r->Err_0, "ItemDataNotFound"@)
            } else {
                match shop_hero(heroes@, hv as i32) {
                    None => r is Err && is_rule(r->Err_0, "CreatureDataNotFound"@),
                    Some(c) => if !c.buyable {
                        r is Err && is_rule(r->Err_0, "InvalidItemData"@)
                    } else {
                        match req.number_of("ItemIndex"@, 0) {
                            None => r is Err && is_rule(r->Err_0, "InvalidValue"@),
                            Some(iv) => if !(i32::MIN <= iv <= i32::MAX) {
                                r is Err && is_rule(r->Err_0, "ItemDataNotFound"@)
                            } else {
                                match hero_item(items@, iv as i32) {
                                    None => r is Err && is_rule(r->Err_0, "InvalidItemIndex"@),
                                    Some(m) => if !grants_start_hero(m, c) {
                                        r is Err && is_rule(r->Err_0, "InvalidItemIndex"@)
                                    } else if owned@.contains(hv as i32) {
                                        r is Err && is_rule(r->Err_0, "HeroAlreadyExist"@)
                                    } else {
                                        match hero_price_row(prices@, c.start_hero_star, c.open_status) {
                                            None => r is Err && is_rule(r->Err_0, "InvalidItemData"@),
                                            Some(p) => match req.number_of("BuyGem"@, -1i64) {
                                                None => if p.buy_gem <= 0 {
                                                    r is Err && is_rule(r->Err_0, "InvalidPrice"@)
                                                } else {
                                                    r is Err && is_rule(r->Err_0, "InvalidValue"@)
                                                },
                                                Some(g) => if p.buy_gem <= 0 || g != p.buy_gem {
                                                    r is Err && is_rule(r->Err_0, "InvalidPrice"@)
                                                } else {
                                                    r == Ok::<HeroPurchase, ServerError>(HeroPurchase {
                                                        hero_index: hv as i32, item_index: iv as i32,
                                                        gem: p.buy_gem, mileage: p.mileage,
                                                    })
                                                },
                                            },
                                        }
                                    },
                                }
                            },
                        }
                    },
                }
            },
        },
{
    let index = crate::inventory::item_index(req, "HeroIndex")?;
    let c = match find_shop_hero(heroes, index) {
        Some(k) => &heroes[k],
        None => { return Err(rule("CreatureDataNotFound")); },
    };
    if !c.buyable {
        return Err(rule("InvalidItemData"));
    }
    let id = crate::inventory::item_index(req, "ItemIndex")?;
    let m = match find_hero_item(items, id) {
        Some(k) => &items[k],
        None => { return Err(rule("InvalidItemIndex")); },
    };
    let level: i64 = if c.start_hero_level > 1 { c.start_hero_level } else { 1 };
    if !m.is_hero || m.hero_index != c.hero_index || m.star != c.start_hero_star || m.transcend != 0 || m.level != level {
        return Err(rule("InvalidItemIndex"));
    }
    if owns(owned, index) {
        return Err(rule("HeroAlreadyExist"));
    }
    let p = match find_hero_price(prices, c.start_hero_star, c.open_status) {
        Some(k) => &prices[k],
        None => { return Err(rule("InvalidItemData")); },
    };
    let gem = p.buy_gem;
    if gem <= 0 {
        return Err(rule("InvalidPrice"));
    }
    if req.number("BuyGem", -1)? != gem {
        return Err(rule("InvalidPrice"));
    }
    Ok(HeroPurchase { hero_index: index, item_index: id, gem, mileage: p.mileage })
}

/// True when a bookmark list may be stored: `i32` hero indices, at most 103, none twice,
/// each of a hero in `owned`.
pub open spec fn bookmarks_valid(l: Seq<i64>, owned: Seq<i32>) -> bool {
    &&& crate::lists::all_within(l, i32::MIN as int, i32::MAX as int)
    &&& l.len() <= 103
    &&& crate::lists::distinct(l)
    &&& forall|k: int| 0 <= k < l.len() ==> owned.contains(#[trigger] l[k] as i32)
}

fn owns(owned: &Vec<i32>, h: i32) -> (r: bool)
    ensures
        r == owned@.contains(h),
{
    let mut i: usize = 0;
    while i < owned.len()
        invariant
            i <= owned@.len(),
            forall|k: int| 0 <= k < i ==> owned@[k] != h,
        decreases owned@.len() - i,
    {
        if owned[i] == h {
            proof {
                assert(owned@[i as int] == h);
            }
            return true;
        }
        i = i + 1;
    }
    false
}

/// Reads a bookmark list, the JSON array of hero indices in field `HeroIndex`, and ranks
/// the heroes: the first gets the list's length, each next one less, down to 1. Refused
/// with `InvalidHeroIndex` when the text is no such array or the list is not valid.
pub fn bookmark_ranks(text: &str, owned: &Vec<i32>) -> (r: Result<Vec<(i32, i32)>, crate::error::ServerError>)
    ensures
        match crate::lists::json_int_array(text@) {
            Some(l) => if bookmarks_valid(l, owned@) {
                r is Ok && r->Ok_0@.len() == l.len()
                    && forall|k: int| 0 <= k < l.len() ==> #[trigger] r->Ok_0@[k] == (l[k] as i32, (l.len() - k) as i32)
            } else {
                r is Err && crate::error::is_rule(r->Err_0, "InvalidHeroIndex"@)
            },
            None => r is Err && crate::error::is_rule(r->Err_0, "InvalidHeroIndex"@),
        },
{
    let l = crate::lists::int_array(text, "InvalidHeroIndex")?;
    if !crate::lists::is_within(&l, i32::MIN as i64, i32::MAX as i64) || l.len() > 103
        || !crate::lists::is_distinct(&l) {
        return Err(crate::error::rule("InvalidHeroIndex"));
    }
    let mut i: usize = 0;
    while i < l.len()
        invariant
            crate::lists::json_int_array(text@) == Some(l@),
            i <= l@.len(),
            crate::lists::all_within(l@, i32::MIN as int, i32::MAX as int),
            forall|k: int| 0 <= k < i ==> owned@.contains(#[trigger] l@[k] as i32),
        decreases l@.len() - i,
    {
        if !owns(owned, l[i] as i32) {
            proof {
                assert(!owned@.contains(l@[i as int] as i32));
                assert(!bookmarks_valid(l@, owned@));
            }
            return Err(crate::error::rule("InvalidHeroIndex"));
        }
        i = i + 1;
    }
    let n = l.len();
    let mut out: Vec<(i32, i32)> = Vec::new();
    let mut j: usize = 0;
    while j < n
        invariant
            n == l@.len() <= 103,
            j <= n,
            crate::lists::all_within(l@, i32::MIN as int, i32::MAX as int),
            out@.len() == j,
            forall|k: int| 0 <= k < j ==> #[trigger] out@[k] == (l@[k] as i32, (n - k) as i32),
        decreases n - j,
    {
        out.push((l[j] as i32, (n - j) as i32));
        j = j + 1;
    }
    Ok(out)
}

/// The bookmark rank a list gives hero `h`: the list's length for its first entry, one less
/// for each later position, 0 when the hero is not listed.
pub open spec fn rank_of(l: Seq<i64>, h: i32) -> int
    decreases l.len(),
{
    if l.len() == 0 {
        0
    } else if l[0] == h as i64 {
        l.len() as int
    } else {
        rank_of(l.drop_first(), h)
    }
}

/// The hero indices of a player's bookmark records.
pub open spec fn heroes_of(marks: Seq<(i32, i32)>) -> Seq<i32> {
    marks.map_values(|m: (i32, i32)| m.0)
}

proof fn lemma_rank_of_skip(l: Seq<i64>, i: int, h: i32)
    requires
        0 <= i < l.len(),
        l[i] != h as i64,
    ensures
        rank_of(l.skip(i), h) == rank_of(l.skip(i + 1), h),
{
    assert(l.skip(i).drop_first() =~= l.skip(i + 1));
}

/// Replaces a player's bookmarks: each record `(hero index, rank)` gets the rank the list
/// in `text` gives its hero (0 for a hero not listed), as `bookmark_ranks` reads and checks
/// the list against the heroes held; a refused list leaves every record as it was.
pub fn bookmark_heroes(marks: &mut Vec<(i32, i32)>, text: &str) -> (r: Result<(), ServerError>)
    ensures
        match crate::lists::json_int_array(text@) {
            Some(l) => if bookmarks_valid(l, heroes_of(old(marks)@)) {
                &&& r is Ok
                &&& final(marks)@.len() == old(marks)@.len()
                &&& forall|k: int| 0 <= k < old(marks)@.len() ==> #[trigger] final(marks)@[k]
                    == (old(marks)@[k].0, rank_of(l, old(marks)@[k].0) as i32)
            } else {
                r is Err && is_rule(r->Err_0, "InvalidHeroIndex"@) && final(marks)@ == old(marks)@
            },
            None => r is Err && is_rule(r->Err_0, "InvalidHeroIndex"@) && final(marks)@ == old(marks)@,
        },
{
    let mut owned: Vec<i32> = Vec::new();
    let mut i: usize = 0;
    while i < marks.len()
        invariant
            i <= marks@.len(),
            owned@ == heroes_of(marks@).take(i as int),
        decreases marks@.len() - i,
    {
        owned.push(marks[i].0);
        proof {
            assert(heroes_of(marks@).take(i + 1) =~= heroes_of(marks@).take(i as int).push(marks@[i as int].0));
        }
        i = i + 1;
    }
    proof {
        assert(heroes_of(marks@).take(marks@.len() as int) =~= heroes_of(marks@));
    }
    let ranks = bookmark_ranks(text, &owned)?;
    let ghost l = crate::lists::json_int_array(text@)->0;
    let ghost start = marks@;
    let n = marks.len();
    let mut k: usize = 0;
    while k < n
        invariant
            n == marks@.len() == start.len(),
            k <= n,
            crate::lists::json_int_array(text@) == Some(l),
            bookmarks_valid(l, heroes_of(start)),
            ranks@.len() == l.len(),
            forall|j: int| 0 <= j < l.len() ==> #[trigger] ranks@[j] == (l[j] as i32, (l.len() - j) as i32),
            forall|j: int| k <= j < n ==> marks@[j] == start[j],
            forall|j: int| 0 <= j < k ==> #[trigger] marks@[j] == (start[j].0, rank_of(l, start[j].0) as i32),
        decreases n - k,
    {
        let h = marks[k].0;
        let mut rank: i32 = 0;
        let mut p: usize = 0;
        proof {
            assert(l.skip(0) =~= l);
        }
        while p < ranks.len()
            invariant_except_break
                rank == 0,
                rank_of(l, h) == rank_of(l.skip(p as int), h),
            invariant
                ranks@.len() == l.len() <= 103,
                crate::lists::all_within(l, i32::MIN as int, i32::MAX as int),
                forall|j: int| 0 <= j < l.len() ==> #[trigger] ranks@[j] == (l[j] as i32, (l.len() - j) as i32),
                p <= l.len(),
            ensures
                rank == rank_of(l, h),
            decreases l.len() - p,
        {
            if ranks[p].0 == h {
                proof {
                    assert(ranks@[p as int] == (l[p as int] as i32, (l.len() - p) as i32));
                    assert(i32::MIN <= l[p as int] <= i32::MAX);
                    assert(l[p as int] == h as i64);
                    assert(l.skip(p as int)[0] == l[p as int]);
                }
                rank = ranks[p].1;
                break;
            }
            proof {
                assert(ranks@[p as int] == (l[p as int] as i32, (l.len() - p) as i32));
                assert(i32::MIN <= l[p as int] <= i32::MAX);
                lemma_rank_of_skip(l, p as int, h);
            }
            p = p + 1;
        }
        marks.set(k, (h, rank));
        k = k + 1;
    }
    Ok(())
}

/// After a bookmark change, a hero is bookmarked (rank at least 1) exactly when the list
/// names it, with a rank no larger than the list's length; an empty list clears every
/// bookmark.
pub proof fn lemma_bookmarks_exact(l: Seq<i64>, h: i32)
    ensures
        rank_of(l, h) > 0 <==> l.contains(h as i64),
        0 <= rank_of(l, h) <= l.len(),
        l.len() == 0 ==> rank_of(l, h) == 0,
    decreases l.len(),
{
    if l.len() > 0 {
        lemma_bookmarks_exact(l.drop_first(), h);
        if l.contains(h as i64) && l[0] != h as i64 {
            let i = choose|i: int| 0 <= i < l.len() && l[i] == h as i64;
            assert(l.drop_first()[i - 1] == h as i64);
        }
        if l.drop_first().contains(h as i64) {
            let i = choose|i: int| 0 <= i < l.drop_first().len() && l.drop_first()[i] == h as i64;
            assert(l[i + 1] == h as i64);
        }
        if l[0] == h as i64 {
            assert(l.contains(h as i64));
        }
    }
}

/// The bookmark flag a request sets: bookmarked unless it says otherwise, stored as 1 or 0.
pub fn bookmark_flag(v: Option<bool>) -> (r: i32)
    ensures
        r == (match v { Some(false) => 0i32, _ => 1i32 }),
{
    match v {
        Some(false) => 0,
        _ => 1,
    }
}

} // verus!
