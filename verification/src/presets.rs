//! Hero presets: buying and naming preset slots, checking a preset's equipment, and
//! applying a preset to the heroes' equipment.
use vstd::prelude::*;
use crate::error::{rule, is_rule, ServerError};
use crate::equip::{EquipBoard, board_ok};
use vstd::string::StrSliceExecFns;

verus! {

/// Checks a preset slot (`StorageKey`): it must be defined (`InvalidHeroStorageKey`).
/// Buying it needs it not owned yet (`AlreadyHasHeroStorageKey`) and a price
/// (`InvalidHeroStorageKey`); using a paid slot needs it owned (`InvalidHeroStorageKey`).
pub fn preset_slot_check(defined: bool, existing: bool, buying: bool, cost: i64, paid: bool) -> (r: Result<(), ServerError>)
    ensures
        if !defined {
            r is Err && is_rule(r->Err_0, "InvalidHeroStorageKey"@)
        } else if buying {
            if existing {
                r is Err && is_rule(r->Err_0, "AlreadyHasHeroStorageKey"@)
            } else if cost <= 0 {
                r is Err && is_rule(r->Err_0, "InvalidHeroStorageKey"@)
            } else {
                r is Ok
            }
        } else if !existing && paid {
            r is Err && is_rule(r->Err_0, "InvalidHeroStorageKey"@)
        } else {
            r is Ok
        },
{
    if !defined {
        return Err(rule("InvalidHeroStorageKey"));
    }
    if buying {
        if existing {
            return Err(rule("AlreadyHasHeroStorageKey"));
        }
        if cost <= 0 {
            return Err(rule("InvalidHeroStorageKey"));
        }
        return Ok(());
    }
    if !existing && paid {
        return Err(rule("InvalidHeroStorageKey"));
    }
    Ok(())
}

/// The name a preset slot gets when the player saves it: the name asked for, or the old
/// name when none is asked; at most 80 characters (`InvalidHeroStorageKey`).
pub fn preset_name(asked: &str, old: &str) -> (r: Result<String, ServerError>)
    ensures
        ({
            let name = if asked@.len() == 0 { old@ } else { asked@ };
            if name.len() > 80 { r is Err && is_rule(r->Err_0, "InvalidHeroStorageKey"@) } else { r is Ok && r->Ok_0@ == name }
        }),
{
    let name = if asked.unicode_len() == 0 { old } else { asked };
    if name.unicode_len() > 80 {
        return Err(rule("InvalidHeroStorageKey"));
    }
    Ok(String::from_str(name))
}

/// Checks one equipment slot of a preset (none when the entry is not an integer,
/// `EquipSlotDataNotFound`): an empty place (0 or less) is skipped; a slot already used by
/// the preset is refused (`EquipSlotDataNotFound`); a new one is recorded in `used` and
/// given back for the caller to check that the player has it.
pub fn preset_slot_step(used: &mut Vec<i64>, s: Option<i64>) -> (r: Result<Option<i64>, ServerError>)
    ensures
        match s {
            None => r is Err && is_rule(r->Err_0, "EquipSlotDataNotFound"@) && final(used)@ == old(used)@,
            Some(v) => if v <= 0 {
                r == Ok::<Option<i64>, ServerError>(None) && final(used)@ == old(used)@
            } else if old(used)@.contains(v) {
                r is Err && is_rule(r->Err_0, "EquipSlotDataNotFound"@)
            } else {
                r == Ok::<Option<i64>, ServerError>(Some(v)) && final(used)@ == old(used)@.push(v)
            },
        },
{
    let v = match s {
        None => { return Err(rule("EquipSlotDataNotFound")); },
        Some(v) => v,
    };
    if v <= 0 {
        return Ok(None);
    }
    let mut i: usize = 0;
    while i < used.len()
        invariant
            i <= used@.len(),
            used@ == old(used)@,
            forall|k: int| 0 <= k < i ==> used@[k] != v,
            s == Some(v),
            v > 0,
        decreases used@.len() - i,
    {
        if used[i] == v {
            proof {
                assert(old(used)@[i as int] == v);
            }
            return Err(rule("EquipSlotDataNotFound"));
        }
        i = i + 1;
    }
    used.push(v);
    Ok(Some(v))
}

/// A preset: the hero and its ten equipment slots.
pub struct HeroPreset {
    pub hero: i32,
    pub slots: Vec<i32>,
}

/// The last preset, among the first `n`, for hero `h`.
pub open spec fn preset_for(presets: Seq<HeroPreset>, h: i32, n: int) -> Option<int>
    decreases n,
{
    if n <= 0 {
        None
    } else if presets[n - 1].hero == h {
        Some(n - 1)
    } else {
        preset_for(presets, h, n - 1)
    }
}

proof fn lemma_preset_for_range(presets: Seq<HeroPreset>, h: i32, n: int)
    ensures
        preset_for(presets, h, n) matches Some(p) ==> 0 <= p < n && presets[p].hero == h,
    decreases n,
{
    if n > 0 {
        lemma_preset_for_range(presets, h, n - 1);
    }
}

/// True when some preset puts item slot `e` (a positive slot) on its hero.
pub open spec fn preset_uses(presets: Seq<HeroPreset>, e: i32) -> bool {
    e > 0 && exists|p: int, j: int| 0 <= p < presets.len() && 0 <= j < presets[p].slots@.len() && presets[p].slots@[j] == e
}

/// The item in column `j` of hero `k` after a preset is applied: the preset's slot for a
/// hero the preset names (the last preset for it); else nothing where the item is one a
/// preset uses; else what was there.
pub open spec fn applied_slot(heroes: Seq<i32>, slots: Seq<i32>, presets: Seq<HeroPreset>, k: int, j: int) -> i32 {
    match preset_for(presets, heroes[k], presets.len() as int) {
        Some(p) => presets[p].slots@[j],
        None => if preset_uses(presets, slots[10 * k + j]) { 0 } else { slots[10 * k + j] },
    }
}

/// True when an item was taken off by applying the presets: a positive item of a hero the
/// presets name, or one the presets use.
pub open spec fn taken_off(heroes: Seq<i32>, slots: Seq<i32>, presets: Seq<HeroPreset>, e: i32) -> bool {
    e > 0 && exists|k: int, j: int| 0 <= k < heroes.len() && 0 <= j < 10 && #[trigger] slots[10 * k + j] == e
        && (preset_for(presets, heroes[k], presets.len() as int) is Some || preset_uses(presets, e))
}

} // verus!

verus! {

fn find_preset(presets: &Vec<HeroPreset>, h: i32) -> (r: Option<usize>)
    ensures
        match preset_for(presets@, h, presets@.len() as int) {
            Some(p) => r is Some && r->0 == p,
            None => r is None,
        },
{
    let mut i = presets.len();
    while i > 0
        invariant
            i <= presets@.len(),
            preset_for(presets@, h, presets@.len() as int) == preset_for(presets@, h, i as int),
        decreases i,
    {
        if presets[i - 1].hero == h {
            return Some(i - 1);
        }
        i = i - 1;
    }
    None
}

fn uses_item(presets: &Vec<HeroPreset>, e: i32) -> (r: bool)
    ensures
        r == preset_uses(presets@, e),
{
    if e <= 0 {
        return false;
    }
    let mut p: usize = 0;
    while p < presets.len()
        invariant
            e > 0,
            p <= presets@.len(),
            forall|a: int, j: int| 0 <= a < p && 0 <= j < presets@[a].slots@.len() ==> presets@[a].slots@[j] != e,
        decreases presets@.len() - p,
    {
        let row = &presets[p].slots;
        let mut j: usize = 0;
        while j < row.len()
            invariant
                e > 0,
                p < presets@.len(),
                *row == presets@[p as int].slots,
                j <= row@.len(),
                forall|b: int| 0 <= b < j ==> row@[b] != e,
            decreases row@.len() - j,
        {
            if row[j] == e {
                proof {
                    assert(presets@[p as int].slots@[j as int] == e);
                }
                return true;
            }
            j = j + 1;
        }
        p = p + 1;
    }
    false
}

/// Applies presets to the heroes' equipment: each hero a preset names wears the preset's
/// slots (the last preset for it); any other hero loses an item a preset uses. Gives the
/// new board and, in increasing order, the items taken off.
pub fn apply_preset(board: &EquipBoard, presets: &Vec<HeroPreset>) -> (r: (EquipBoard, Vec<i64>))
    requires
        board_ok(board.heroes@, board.slots@),
        board.heroes@.len() <= 0x100_0000,
        forall|p: int| 0 <= p < presets@.len() ==> (#[trigger] presets@[p]).slots@.len() == 10,
    ensures
        r.0.heroes@ == board.heroes@,
        board_ok(r.0.heroes@, r.0.slots@),
        forall|k: int, j: int| 0 <= k < board.heroes@.len() && 0 <= j < 10 ==>
            #[trigger] r.0.slots@[10 * k + j] == applied_slot(board.heroes@, board.slots@, presets@, k, j),
        crate::soul::ascending(r.1@),
        forall|e: i32| r.1@.contains(e as i64) <==> taken_off(board.heroes@, board.slots@, presets@, e),
        forall|x: i64| r.1@.contains(x) ==> i32::MIN <= x <= i32::MAX,
{
    let n = board.heroes.len();
    let mut slots: Vec<i32> = board.slots.clone();
    let mut removed: Vec<i64> = Vec::new();
    let mut k: usize = 0;
    while k < n
        invariant
            n == board.heroes@.len(),
            n <= 0x100_0000,
            board_ok(board.heroes@, board.slots@),
            forall|p: int| 0 <= p < presets@.len() ==> (#[trigger] presets@[p]).slots@.len() == 10,
            slots@.len() == board.slots@.len(),
            k <= n,
            forall|a: int, j: int| 0 <= a < k && 0 <= j < 10 ==>
                #[trigger] slots@[10 * a + j] == applied_slot(board.heroes@, board.slots@, presets@, a, j),
            forall|i: int| 10 * k <= i < slots@.len() ==> #[trigger] slots@[i] == board.slots@[i],
            crate::soul::ascending(removed@),
            forall|x: i64| removed@.contains(x) ==> i32::MIN <= x <= i32::MAX,
            forall|e: i32| #![trigger removed@.contains(e as i64)] removed@.contains(e as i64) <==> (e > 0 && exists|a: int, j: int| 0 <= a < k && 0 <= j < 10
                && #[trigger] board.slots@[10 * a + j] == e
                && (preset_for(presets@, board.heroes@[a], presets@.len() as int) is Some || preset_uses(presets@, e))),
        decreases n - k,
    {
        let h = board.heroes[k];
        let saved = find_preset(presets, h);
        proof {
            lemma_preset_for_range(presets@, h, presets@.len() as int);
        }
        proof {
            assert(10 * k + 10 <= 10 * n) by (nonlinear_arith) requires k < n;
        }
        let base = 10 * k;
        let mut j: usize = 0;
        while j < 10
            invariant
                n == board.heroes@.len(),
                n <= 0x100_0000,
                board_ok(board.heroes@, board.slots@),
                forall|p: int| 0 <= p < presets@.len() ==> (#[trigger] presets@[p]).slots@.len() == 10,
                slots@.len() == board.slots@.len(),
                k < n,
                base == 10 * k,
                base + 10 <= slots@.len(),
                j <= 10,
                h == board.heroes@[k as int],
                match preset_for(presets@, h, presets@.len() as int) { Some(p) => saved is Some && saved->0 == p, None => saved is None },
                forall|a: int, jj: int| 0 <= a < k && 0 <= jj < 10 ==>
                    #[trigger] slots@[10 * a + jj] == applied_slot(board.heroes@, board.slots@, presets@, a, jj),
                forall|jj: int| 0 <= jj < j ==> #[trigger] slots@[base + jj] == applied_slot(board.heroes@, board.slots@, presets@, k as int, jj),
                forall|i: int| base + j <= i < slots@.len() ==> #[trigger] slots@[i] == board.slots@[i],
                crate::soul::ascending(removed@),
                forall|x: i64| removed@.contains(x) ==> i32::MIN <= x <= i32::MAX,
                forall|e: i32| #![trigger removed@.contains(e as i64)] removed@.contains(e as i64) <==> (e > 0 && (
                    (exists|a: int, jj: int| 0 <= a < k && 0 <= jj < 10
                        && #[trigger] board.slots@[10 * a + jj] == e
                        && (preset_for(presets@, board.heroes@[a], presets@.len() as int) is Some || preset_uses(presets@, e)))
                    || (exists|jj: int| 0 <= jj < j && #[trigger] board.slots@[base + jj] == e
                        && (preset_for(presets@, h, presets@.len() as int) is Some || preset_uses(presets@, e))))),
            decreases 10 - j,
        {
            let e = board.slots[base + j];
            let used = uses_item(presets, e);
            let ghost before = removed@;
            let clear = saved.is_some() || used;
            if clear && e > 0 {
                let mut seen = false;
                let mut q: usize = 0;
                while q < removed.len()
                    invariant
                        q <= removed@.len(),
                        seen <==> exists|z: int| 0 <= z < q && removed@[z] == e as i64,
                    decreases removed@.len() - q,
                {
                    if removed[q] == e as i64 {
                        seen = true;
                    }
                    q = q + 1;
                }
                if !seen {
                    crate::soul::insert_sorted(&mut removed, e as i64);
                }
            }
            let v: i32 = match saved {
                Some(p) => {
                    proof {
                        lemma_preset_for_range(presets@, h, presets@.len() as int);
                        assert(presets@[p as int].slots@.len() == 10);
                    }
                    presets[p].slots[j]
                },
                None => if used { 0 } else { e },
            };
            let ghost old_slots = slots@;
            slots.set(base + j, v);
            proof {
                assert forall|x: i64| removed@.contains(x) implies i32::MIN <= x <= i32::MAX by {
                    if !before.contains(x) {
                        assert(x == e as i64);
                    }
                }
                assert forall|f: i32| #![trigger removed@.contains(f as i64)] removed@.contains(f as i64) <==> (f > 0 && (
                    (exists|a: int, jj: int| 0 <= a < k && 0 <= jj < 10
                        && #[trigger] board.slots@[10 * a + jj] == f
                        && (preset_for(presets@, board.heroes@[a], presets@.len() as int) is Some || preset_uses(presets@, f)))
                    || (exists|jj: int| 0 <= jj < j + 1 && #[trigger] board.slots@[base + jj] == f
                        && (preset_for(presets@, h, presets@.len() as int) is Some || preset_uses(presets@, f))))) by {
                    if removed@.contains(f as i64) && !before.contains(f as i64) {
                        assert(f as i64 == e as i64);
                        assert(board.slots@[base + j] == f);
                    }
                    if before.contains(f as i64) {
                        assert(removed@.contains(f as i64));
                    }
                    if f > 0 && exists|jj: int| 0 <= jj < j + 1 && #[trigger] board.slots@[base + jj] == f
                        && (preset_for(presets@, h, presets@.len() as int) is Some || preset_uses(presets@, f)) {
                        let jj = choose|jj: int| 0 <= jj < j + 1 && #[trigger] board.slots@[base + jj] == f
                            && (preset_for(presets@, h, presets@.len() as int) is Some || preset_uses(presets@, f));
                        if jj == j {
                            assert(f == e);
                            assert(clear);
                            if !before.contains(f as i64) {
                                assert(removed@.contains(e as i64));
                            }
                        }
                    }
                }
                assert(board.slots@[base + j] == board.slots@[10 * k + j]);
                assert forall|jj: int| 0 <= jj < j + 1 implies #[trigger] slots@[base + jj] == applied_slot(board.heroes@, board.slots@, presets@, k as int, jj) by {
                    if jj == j {
                        assert(board.slots@[10 * (k as int) + jj] == e);
                        assert(slots@[base + jj] == v);
                        lemma_preset_for_range(presets@, h, presets@.len() as int);
                        assert(saved is None ==> used == preset_uses(presets@, e));
                    } else {
                        assert(slots@[base + jj] == old_slots[base + jj]);
                    }
                }
            }
            j = j + 1;
        }
        proof {
            assert forall|a: int, jj: int| 0 <= a < k + 1 && 0 <= jj < 10 implies
                #[trigger] slots@[10 * a + jj] == applied_slot(board.heroes@, board.slots@, presets@, a, jj) by {
                if a == k {
                    assert(10 * a + jj == base + jj);
                }
            }
            assert forall|i: int| 10 * (k + 1) <= i < slots@.len() implies #[trigger] slots@[i] == board.slots@[i] by {
                assert(base + 10 == 10 * (k + 1));
            }
            assert forall|f: i32| #![trigger removed@.contains(f as i64)] removed@.contains(f as i64) <==> (f > 0 && exists|a: int, jj: int| 0 <= a < k + 1 && 0 <= jj < 10
                && #[trigger] board.slots@[10 * a + jj] == f
                && (preset_for(presets@, board.heroes@[a], presets@.len() as int) is Some || preset_uses(presets@, f))) by {
                if removed@.contains(f as i64) {
                    if !(exists|a: int, jj: int| 0 <= a < k && 0 <= jj < 10
                        && #[trigger] board.slots@[10 * a + jj] == f
                        && (preset_for(presets@, board.heroes@[a], presets@.len() as int) is Some || preset_uses(presets@, f))) {
                        let jj = choose|jj: int| 0 <= jj < 10 && #[trigger] board.slots@[base + jj] == f
                            && (preset_for(presets@, h, presets@.len() as int) is Some || preset_uses(presets@, f));
                        assert(board.slots@[10 * (k as int) + jj] == f);
                    }
                }
                if f > 0 && exists|a: int, jj: int| 0 <= a < k + 1 && 0 <= jj < 10
                    && #[trigger] board.slots@[10 * a + jj] == f
                    && (preset_for(presets@, board.heroes@[a], presets@.len() as int) is Some || preset_uses(presets@, f)) {
                    let (a, jj) = choose|a: int, jj: int| 0 <= a < k + 1 && 0 <= jj < 10
                        && #[trigger] board.slots@[10 * a + jj] == f
                        && (preset_for(presets@, board.heroes@[a], presets@.len() as int) is Some || preset_uses(presets@, f));
                    if a == k {
                        assert(board.slots@[base + jj] == f);
                    }
                }
            }
        }
        k = k + 1;
    }
    proof {
        assert forall|e: i32| #![trigger removed@.contains(e as i64)] removed@.contains(e as i64) <==> taken_off(board.heroes@, board.slots@, presets@, e) by {
            if taken_off(board.heroes@, board.slots@, presets@, e) {
                let (a, jj) = choose|a: int, jj: int| 0 <= a < board.heroes@.len() && 0 <= jj < 10 && #[trigger] board.slots@[10 * a + jj] == e
                    && (preset_for(presets@, board.heroes@[a], presets@.len() as int) is Some || preset_uses(presets@, e));
            }
        }
    }
    (EquipBoard { heroes: board.heroes.clone(), slots }, removed)
}

} // verus!
