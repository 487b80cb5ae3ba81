//! Rune pages: opening a new page, finding a page and a slot, what happens to the rune a
//! slot held, and putting a rune in a slot.
use vstd::prelude::*;
use crate::error::{rule, is_rule, ServerError};
use crate::extensions::{RuneSlot, new_page};

verus! {

/// The pages a hero's rune slots start from: the saved ones, or a fresh page 1.
pub fn rune_pages(saved: Option<Vec<RuneSlot>>, hero: i32, slots: i64) -> (r: Vec<RuneSlot>)
    requires
        slots < i64::MAX,
    ensures
        saved is Some ==> r@ == saved->0@,
        saved is None ==> r@.len() == (if slots > 0 { slots as int } else { 0 }),
        saved is None ==> forall|i: int| 0 <= i < r@.len() ==> #[trigger] r@[i] == (RuneSlot {
            hero_index: hero, rune_page: 1, slot_num: (i + 1) as i64, equip_item_slot_index: 0, item_index: 0,
        }),
{
    match saved {
        Some(v) => v,
        None => new_page(hero, 1, slots),
    }
}

/// The highest page number among the first `n` slots (`i64::MIN` for none).
pub open spec fn max_page(pages: Seq<RuneSlot>, n: int) -> int
    decreases n,
{
    if n <= 0 {
        i64::MIN as int
    } else {
        let m = max_page(pages, n - 1);
        if pages[n - 1].rune_page > m { pages[n - 1].rune_page as int } else { m }
    }
}

/// The last page a hero has: the highest page number, or 1 when there are no slots.
pub open spec fn last_page(pages: Seq<RuneSlot>) -> int {
    if pages.len() == 0 { 1 } else { max_page(pages, pages.len() as int) }
}

/// Opens rune page `page`: it must come right after the last page and not pass
/// `max_pages` (`InvalidRunePage`). Gives the slots with the new page's empty slots
/// (numbered 1 to `slots`) added at the end.
pub fn extend_rune_page(pages: Vec<RuneSlot>, hero: i32, page: i64, max_pages: i64, slots: i64) -> (r: Result<Vec<RuneSlot>, ServerError>)
    requires
        slots < i64::MAX,
    ensures
        page != last_page(pages@) + 1 || page > max_pages ==> r is Err && is_rule(r->Err_0, "InvalidRunePage"@),
        !(page != last_page(pages@) + 1 || page > max_pages) ==> r is Ok && ({
            let v = r->Ok_0@;
            &&& v.len() == pages@.len() + (if slots > 0 { slots as int } else { 0 })
            &&& v.take(pages@.len() as int) == pages@
            &&& forall|i: int| pages@.len() <= i < v.len() ==> #[trigger] v[i] == (RuneSlot {
                    hero_index: hero, rune_page: page, slot_num: (i - pages@.len() + 1) as i64, equip_item_slot_index: 0, item_index: 0,
                })
        }),
{
    let mut last: i64 = i64::MIN;
    let mut i: usize = 0;
    while i < pages.len()
        invariant
            i <= pages@.len(),
            last == max_page(pages@, i as int),
        decreases pages@.len() - i,
    {
        if pages[i].rune_page > last {
            last = pages[i].rune_page;
        }
        i = i + 1;
    }
    if pages.len() == 0 {
        last = 1;
    }
    if last == i64::MAX || page != last + 1 || page > max_pages {
        return Err(rule("InvalidRunePage"));
    }
    let fresh = new_page(hero, page, slots);
    let mut out = pages;
    let ghost old_pages = out@;
    let mut k: usize = 0;
    while k < fresh.len()
        invariant
            k <= fresh@.len(),
            out@.len() == old_pages.len() + k,
            out@.take(old_pages.len() as int) == old_pages,
            forall|j: int| old_pages.len() <= j < out@.len() ==> #[trigger] out@[j] == fresh@[j - old_pages.len()],
        decreases fresh@.len() - k,
    {
        let ghost before = out@;
        out.push(fresh[k]);
        proof {
            assert(out@.take(old_pages.len() as int) =~= before.take(old_pages.len() as int));
        }
        k = k + 1;
    }
    Ok(out)
}

/// True when some slot is on page `page`.
pub open spec fn has_page(pages: Seq<RuneSlot>, page: i64) -> bool {
    exists|i: int| 0 <= i < pages.len() && #[trigger] pages[i].rune_page == page
}

/// Checks that the hero has rune page `page` (`InvalidRunePage` otherwise).
pub fn rune_page_check(pages: &Vec<RuneSlot>, page: i64) -> (r: Result<(), ServerError>)
    ensures
        has_page(pages@, page) ==> r is Ok,
        !has_page(pages@, page) ==> r is Err && is_rule(r->Err_0, "InvalidRunePage"@),
{
    let mut i: usize = 0;
    while i < pages.len()
        invariant
            i <= pages@.len(),
            forall|k: int| 0 <= k < i ==> pages@[k].rune_page != page,
        decreases pages@.len() - i,
    {
        if pages[i].rune_page == page {
            proof {
                assert(pages@[i as int].rune_page == page);
            }
            return Ok(());
        }
        i = i + 1;
    }
    Err(rule("InvalidRunePage"))
}

/// Finds the first slot numbered `slot` on page `page` (`InvalidRuneSlot` when there is
/// none).
pub fn rune_slot(pages: &Vec<RuneSlot>, page: i64, slot: i64) -> (r: Result<usize, ServerError>)
    ensures
        r is Ok ==> r->Ok_0 < pages@.len() && pages@[r->Ok_0 as int].rune_page == page && pages@[r->Ok_0 as int].slot_num == slot
            && forall|k: int| 0 <= k < r->Ok_0 ==> !(pages@[k].rune_page == page && pages@[k].slot_num == slot),
        r is Err ==> is_rule(r->Err_0, "InvalidRuneSlot"@)
            && forall|k: int| 0 <= k < pages@.len() ==> !(pages@[k].rune_page == page && pages@[k].slot_num == slot),
{
    let mut i: usize = 0;
    while i < pages.len()
        invariant
            i <= pages@.len(),
            forall|k: int| 0 <= k < i ==> !(pages@[k].rune_page == page && pages@[k].slot_num == slot),
        decreases pages@.len() - i,
    {
        if pages[i].rune_page == page && pages[i].slot_num == slot {
            return Ok(i);
        }
        i = i + 1;
    }
    Err(rule("InvalidRuneSlot"))
}

/// What becomes of the rune a slot held when it is replaced or taken out: with
/// `preserve`, the player pays (the price of a punishment rune when it is one) and gets
/// a plain rune back while a punishment rune returns to its storage; without, a
/// punishment rune is destroyed and a plain rune is lost.
#[derive(PartialEq, Eq, Structural)]
pub struct RuneRelease {
    pub pay_punishment_price: bool,
    pub pay_plain_price: bool,
    pub give_back: i64,
    pub destroy_equip: i64,
}

/// Decides the fate of a slot's rune (`old` the rune item, `old_equip` its equipment slot
/// when it is a punishment rune). Taking out an empty slot is refused (`RuneNotFound`).
pub fn release_rune(old: i64, old_equip: i64, preserve: bool, unequip: bool) -> (r: Result<RuneRelease, ServerError>)
    ensures
        old <= 0 && unequip ==> r is Err && is_rule(r->Err_0, "RuneNotFound"@),
        old <= 0 && !unequip ==> r == Ok::<RuneRelease, ServerError>(RuneRelease { pay_punishment_price: false, pay_plain_price: false, give_back: 0, destroy_equip: 0 }),
        old > 0 && preserve ==> r == Ok::<RuneRelease, ServerError>(RuneRelease {
            pay_punishment_price: old_equip > 0, pay_plain_price: old_equip <= 0,
            give_back: if old_equip > 0 { 0 } else { old }, destroy_equip: 0,
        }),
        old > 0 && !preserve ==> r == Ok::<RuneRelease, ServerError>(RuneRelease {
            pay_punishment_price: false, pay_plain_price: false, give_back: 0,
            destroy_equip: if old_equip > 0 { old_equip } else { 0 },
        }),
{
    if old > 0 {
        if preserve {
            Ok(RuneRelease {
                pay_punishment_price: old_equip > 0,
                pay_plain_price: old_equip <= 0,
                give_back: if old_equip > 0 { 0 } else { old },
                destroy_equip: 0,
            })
        } else {
            Ok(RuneRelease {
                pay_punishment_price: false,
                pay_plain_price: false,
                give_back: 0,
                destroy_equip: if old_equip > 0 { old_equip } else { 0 },
            })
        }
    } else if unequip {
        Err(rule("RuneNotFound"))
    } else {
        Ok(RuneRelease { pay_punishment_price: false, pay_plain_price: false, give_back: 0, destroy_equip: 0 })
    }
}

/// Checks a rune put in slot `slot`: a punishment rune must be the item asked for
/// (`InvalidRune`; `equipped_item` is the item on its equipment slot, none for a plain
/// rune), its data must exist (`ItemDataNotFound`; `slot_types` are the slots it fits), and
/// it must fit the slot (`InvalidRuneSlot`).
pub fn rune_fits(asked: i64, equipped_item: Option<i64>, slot_types: Option<&Vec<i64>>, slot: i64) -> (r: Result<(), ServerError>)
    ensures
        equipped_item matches Some(it) && it != asked ==> r is Err && is_rule(r->Err_0, "InvalidRune"@),
        !(equipped_item matches Some(it) && it != asked) && slot_types is None ==> r is Err && is_rule(r->Err_0, "ItemDataNotFound"@),
        !(equipped_item matches Some(it) && it != asked) && slot_types is Some ==> if slot_types->0@.contains(slot) {
            r is Ok
        } else {
            r is Err && is_rule(r->Err_0, "InvalidRuneSlot"@)
        },
{
    if let Some(it) = equipped_item {
        if it != asked {
            return Err(rule("InvalidRune"));
        }
    }
    let types = match slot_types {
        None => { return Err(rule("ItemDataNotFound")); },
        Some(t) => t,
    };
    let mut i: usize = 0;
    while i < types.len()
        invariant
            i <= types@.len(),
            slot_types == Some(types),
            !(equipped_item matches Some(it) && it != asked),
            forall|k: int| 0 <= k < i ==> types@[k] != slot,
        decreases types@.len() - i,
    {
        if types[i] == slot {
            proof {
                assert(types@[i as int] == slot);
            }
            return Ok(());
        }
        i = i + 1;
    }
    Err(rule("InvalidRuneSlot"))
}

/// Puts a rune (item `item`, equipment slot `equip`, both 0 for none) in slot `at`.
pub fn set_rune(pages: &mut Vec<RuneSlot>, at: usize, item: i64, equip: i64)
    requires
        at < old(pages)@.len(),
    ensures
        final(pages)@ == old(pages)@.update(at as int, RuneSlot { item_index: item, equip_item_slot_index: equip, ..old(pages)@[at as int] }),
{
    let s = pages[at];
    pages.set(at, RuneSlot { item_index: item, equip_item_slot_index: equip, ..s });
}

} // verus!
