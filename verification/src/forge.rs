//! Working one piece of equipment: awakening, levelling, tier upgrades and raising option
//! steps.
use vstd::prelude::*;
use crate::error::{rule, is_rule, ServerError};

verus! {

/// Refuses to awaken equipment at its detail's most stars or that is not plain equipment
/// (`MaxStar`), or with no material at all (`NotEnoughMaterial`).
pub fn awaken_start(star: i64, max_star: i64, equip_type: i64, materials: usize, stones: usize) -> (r: Result<(), ServerError>)
    ensures
        if star >= max_star || equip_type != 0 {
            r is Err && is_rule(r->Err_0, "MaxStar"@)
        } else if materials == 0 && stones == 0 {
            r is Err && is_rule(r->Err_0, "NotEnoughMaterial"@)
        } else {
            r is Ok
        },
{
    if star >= max_star || equip_type != 0 {
        return Err(rule("MaxStar"));
    }
    if materials == 0 && stones == 0 {
        return Err(rule("NotEnoughMaterial"));
    }
    Ok(())
}

/// Refuses an awakening material that is the equipment itself, another item, or below the
/// level the detail asks (`InvalidMaterial`).
pub fn awaken_material_check(slot: i64, own_slot: i64, item: i64, own_item: i64, level: i64, req_level: i64) -> (r: Result<(), ServerError>)
    ensures
        r is Ok <==> !(slot == own_slot || item != own_item || level < req_level),
        r is Err ==> is_rule(r->Err_0, "InvalidMaterial"@),
{
    if slot == own_slot {
        return Err(rule("InvalidMaterial"));
    }
    if item != own_item || level < req_level {
        return Err(rule("InvalidMaterial"));
    }
    Ok(())
}

/// An awakening stone of the stone table.
pub struct AwakenStone {
    /// 42 for unique weapons, 43 for unique treasures.
    pub stone_type: i64,
    /// The items it may awaken (any when empty).
    pub items: Vec<i64>,
    pub allow_npc: bool,
}

/// True when a stone may awaken item `item` of detail type `detail_type`; `npc` tells
/// whether the item belongs to an NPC hero.
pub open spec fn stone_fits(s: AwakenStone, detail_type: i64, item: i64, npc: bool) -> bool {
    let valid_type = if s.stone_type == 42 { detail_type == 11 || detail_type == 13 } else if s.stone_type == 43 { detail_type == 14 } else { false };
    &&& valid_type
    &&& s.items@.len() == 0 || s.items@.contains(item)
    &&& s.allow_npc || !npc
}

/// Refuses a stone that does not fit (`InvalidMaterial`); see `stone_fits`.
pub fn stone_check(s: &AwakenStone, detail_type: i64, item: i64, npc: bool) -> (r: Result<(), ServerError>)
    ensures
        r is Ok <==> stone_fits(*s, detail_type, item, npc),
        r is Err ==> is_rule(r->Err_0, "InvalidMaterial"@),
{
    let valid_type = if s.stone_type == 42 { detail_type == 11 || detail_type == 13 } else if s.stone_type == 43 { detail_type == 14 } else { false };
    let mut listed = false;
    let mut i: usize = 0;
    while i < s.items.len()
        invariant
            i <= s.items@.len(),
            listed <==> exists|k: int| 0 <= k < i && s.items@[k] == item,
        decreases s.items@.len() - i,
    {
        if s.items[i] == item {
            listed = true;
        }
        i = i + 1;
    }
    if !valid_type || (s.items.len() > 0 && !listed) {
        return Err(rule("InvalidMaterial"));
    }
    if !s.allow_npc && npc {
        return Err(rule("InvalidMaterial"));
    }
    Ok(())
}

/// The outcome of an awakening roll.
pub struct AwakenRoll {
    pub success: bool,
    pub star: i32,
    pub fail_bonus: i32,
}

/// Rolls an awakening (or a soul weapon limit break): it succeeds with the ratio plus the
/// failure bonus in 100; success adds a star and clears the bonus, failure adds the
/// failure ratio to the bonus.
pub fn awaken_roll(star: i32, fail_bonus: i32, success_ratio: i64, fail_ratio: i64) -> (r: AwakenRoll)
    requires
        star < i32::MAX,
        i64::MIN <= success_ratio + fail_bonus <= i64::MAX,
        i32::MIN <= fail_bonus + (fail_ratio as i32) <= i32::MAX,
    ensures
        success_ratio + fail_bonus <= 0 ==> !r.success,
        success_ratio + fail_bonus >= 100 ==> r.success,
        r.success ==> r.star == star + 1 && r.fail_bonus == 0,
        !r.success ==> r.star == star && r.fail_bonus == fail_bonus + (fail_ratio as i32),
{
    let success = crate::gear::roll(success_ratio + fail_bonus as i64, 100);
    if success {
        AwakenRoll { success, star: star + 1, fail_bonus: 0 }
    } else {
        AwakenRoll { success, star, fail_bonus: fail_bonus + #[verifier::truncate] (fail_ratio as i32) }
    }
}

/// Refuses a level target at or below the equipment's level, past its detail's most, or
/// for equipment that levels with its hero (`MaxLevel`).
pub fn level_target_check(target: i64, level: i64, max_level: i64, by_hero: bool) -> (r: Result<(), ServerError>)
    ensures
        r is Ok <==> !(target <= level || target > max_level || by_hero),
        r is Err ==> is_rule(r->Err_0, "MaxLevel"@),
{
    if target <= level || target > max_level || by_hero {
        return Err(rule("MaxLevel"));
    }
    Ok(())
}

/// What one level on the way costs: its gold price and the experience it takes, each
/// none when the table lacks it.
pub struct LevelCost {
    pub gold: Option<i64>,
    pub need: Option<i64>,
}

/// The outcome of levelling equipment with `gained` experience through the levels whose
/// costs are `levels` (from the current level up): each level's price must be known
/// (`ItemDataNotFound`), its experience too (`ItemDataNotFound`), and the experience must
/// cover it (`NotEnoughMaterial`). Gives the gold and the experience left after the first
/// `n` levels.
pub open spec fn level_up_of(gained: int, levels: Seq<LevelCost>, n: int) -> Result<(int, int), Seq<char>>
    decreases n,
{
    if n <= 0 {
        Ok((0, gained))
    } else {
        match level_up_of(gained, levels, n - 1) {
            Err(e) => Err(e),
            Ok(acc) => match levels[n - 1].gold {
                None => Err("ItemDataNotFound"@),
                Some(g) => match levels[n - 1].need {
                    None => Err("ItemDataNotFound"@),
                    Some(need) => if acc.1 < need { Err("NotEnoughMaterial"@) } else { Ok((acc.0 + g, acc.1 - need)) },
                },
            },
        }
    }
}

proof fn lemma_level_up_error_sticks(gained: int, levels: Seq<LevelCost>, k: int, n: int)
    requires
        0 <= k <= n <= levels.len(),
        level_up_of(gained, levels, k) is Err,
    ensures
        level_up_of(gained, levels, n) == level_up_of(gained, levels, k),
    decreases n - k,
{
    if k < n {
        lemma_level_up_error_sticks(gained, levels, k, n - 1);
    }
}

/// Levels equipment; see `level_up_of`. The experience left must fit an `i32`
/// (`InvalidMaterial`). Gives the gold and the experience left.
pub fn level_up(gained: i64, levels: &Vec<LevelCost>) -> (r: Result<(i64, i32), ServerError>)
    requires
        levels@.len() <= 0x10_0000,
        0 <= gained <= 0x1_0000_0000_0000,
        forall|k: int| 0 <= k < levels@.len() ==> ((#[trigger] levels@[k]).gold matches Some(g) ==> -0x1_0000_0000 <= g <= 0x1_0000_0000),
        forall|k: int| 0 <= k < levels@.len() ==> ((#[trigger] levels@[k]).need matches Some(x) ==> -0x1_0000_0000 <= x <= 0x1_0000_0000),
    ensures
        match level_up_of(gained as int, levels@, levels@.len() as int) {
            Err(e) => r is Err && is_rule(r->Err_0, e),
            Ok(acc) => if !(i32::MIN <= acc.1 <= i32::MAX) {
                r is Err && is_rule(r->Err_0, "InvalidMaterial"@)
            } else {
                r is Ok && r->Ok_0.0 == acc.0 && r->Ok_0.1 == acc.1
            },
        },
{
    let mut cost: i64 = 0;
    let mut left: i64 = gained;
    let n = levels.len();
    let mut i: usize = 0;
    while i < n
        invariant
            n == levels@.len(),
            n <= 0x10_0000,
            forall|k: int| 0 <= k < levels@.len() ==> ((#[trigger] levels@[k]).gold matches Some(g) ==> -0x1_0000_0000 <= g <= 0x1_0000_0000),
            forall|k: int| 0 <= k < levels@.len() ==> ((#[trigger] levels@[k]).need matches Some(x) ==> -0x1_0000_0000 <= x <= 0x1_0000_0000),
            i <= n,
            level_up_of(gained as int, levels@, i as int) == Ok::<(int, int), Seq<char>>((cost as int, left as int)),
            -(i as int) * 0x1_0000_0000 <= cost <= (i as int) * 0x1_0000_0000,
            0 <= left <= gained + (i as int) * 0x1_0000_0000,
            0 <= gained <= 0x1_0000_0000_0000,
        decreases n - i,
    {
        let l = &levels[i];
        let g = match l.gold {
            None => {
                proof {
                    lemma_level_up_error_sticks(gained as int, levels@, i + 1, n as int);
                }
                return Err(rule("ItemDataNotFound"));
            },
            Some(g) => g,
        };
        let need = match l.need {
            None => {
                proof {
                    lemma_level_up_error_sticks(gained as int, levels@, i + 1, n as int);
                }
                return Err(rule("ItemDataNotFound"));
            },
            Some(need) => need,
        };
        if left < need {
            proof {
                lemma_level_up_error_sticks(gained as int, levels@, i + 1, n as int);
            }
            return Err(rule("NotEnoughMaterial"));
        }
        proof {
            assert((i + 1) * 0x1_0000_0000 <= 0x10_0000 * 0x1_0000_0000) by (nonlinear_arith)
                requires i + 1 <= 0x10_0000;
            assert((i as int) * 0x1_0000_0000 <= 0x10_0000 * 0x1_0000_0000) by (nonlinear_arith)
                requires i <= 0x10_0000;
            assert(-0x1_0000_0000 <= need <= 0x1_0000_0000) by {
                assert(levels@[i as int].need == Some(need));
            }
            assert(-0x1_0000_0000 <= g <= 0x1_0000_0000) by {
                assert(levels@[i as int].gold == Some(g));
            }
        }
        cost = cost + g;
        left = left - need;
        i = i + 1;
    }
    if left < i32::MIN as i64 || left > i32::MAX as i64 {
        return Err(rule("InvalidMaterial"));
    }
    Ok((cost, left as i32))
}

/// Refuses a tier upgrade of equipment with an unconfirmed option (`UnconfirmedOption`)
/// or below its detail's most stars (`NotEnoughStar`).
pub fn tier_upgrade_check(pending: bool, star: i64, max_star: i64) -> (r: Result<(), ServerError>)
    ensures
        if pending {
            r is Err && is_rule(r->Err_0, "UnconfirmedOption"@)
        } else if star != max_star {
            r is Err && is_rule(r->Err_0, "NotEnoughStar"@)
        } else {
            r is Ok
        },
{
    if pending {
        return Err(rule("UnconfirmedOption"));
    }
    if star != max_star {
        return Err(rule("NotEnoughStar"));
    }
    Ok(())
}

} // verus!

verus! {

/// The steps slot `k` can still rise: up to its option's steps (none when the slot's
/// option is unknown).
pub open spec fn slot_room(cur: Seq<i64>, caps: Seq<Option<i64>>, k: int) -> int {
    match caps[k] {
        Some(c) => if cur[k] < c { c - cur[k] } else { 0 },
        None => 0,
    }
}

/// The steps the four option slots can still rise in all.
pub open spec fn room_of(cur: Seq<i64>, caps: Seq<Option<i64>>) -> int {
    slot_room(cur, caps, 0) + slot_room(cur, caps, 1) + slot_room(cur, caps, 2) + slot_room(cur, caps, 3)
}

/// True when the option steps and their caps are small.
pub open spec fn steps_ok(cur: Seq<i64>, caps: Seq<Option<i64>>) -> bool {
    &&& cur.len() == 4
    &&& caps.len() == 4
    &&& forall|k: int| 0 <= k < 4 ==> -0x1_0000_0000 <= #[trigger] cur[k] <= 0x1_0000_0000
    &&& forall|k: int| 0 <= k < 4 ==> (#[trigger] caps[k] matches Some(c) ==> -0x1_0000_0000 <= c <= 0x1_0000_0000)
}

/// The option slots among the first `n` that can still rise, in slot order.
pub open spec fn open_slots_upto(cur: Seq<i64>, caps: Seq<Option<i64>>, n: int) -> Seq<int>
    decreases n,
{
    if n <= 0 {
        Seq::empty()
    } else {
        let prev = open_slots_upto(cur, caps, n - 1);
        if slot_room(cur, caps, n - 1) > 0 { prev.push(n - 1) } else { prev }
    }
}

/// The option slots that can still rise, in slot order.
pub open spec fn open_slots(cur: Seq<i64>, caps: Seq<Option<i64>>) -> Seq<int> {
    open_slots_upto(cur, caps, 4)
}

/// Raises option steps from round `k` on, up to `rounds` rounds: each round raises by one
/// the slot at position `pick % count` among those that can still rise, until none can.
/// Gives the steps, the number of steps raised, and whether every pick used was below the
/// count it chose among.
pub open spec fn raise_run(cur: Seq<i64>, caps: Seq<Option<i64>>, rounds: int, picks: Seq<usize>, k: int)
    -> (Seq<i64>, int, bool)
    decreases rounds - k,
{
    if k >= rounds {
        (cur, k, true)
    } else {
        let open = open_slots(cur, caps);
        if open.len() == 0 {
            (cur, k, true)
        } else {
            let p = crate::soul::pick_at(picks, k);
            let s = open[p % (open.len() as int)];
            let rest = raise_run(cur.update(s, (cur[s] + 1) as i64), caps, rounds, picks, k + 1);
            (rest.0, rest.1, p < open.len() && rest.2)
        }
    }
}

proof fn lemma_open_slots(cur: Seq<i64>, caps: Seq<Option<i64>>, n: int)
    requires
        0 <= n <= 4,
        cur.len() == 4,
        caps.len() == 4,
    ensures
        open_slots_upto(cur, caps, n).len() <= n,
        forall|j: int| 0 <= j < open_slots_upto(cur, caps, n).len() ==> 0 <= #[trigger] open_slots_upto(cur, caps, n)[j] < n
            && slot_room(cur, caps, open_slots_upto(cur, caps, n)[j]) > 0,
        forall|i: int| 0 <= i < n && slot_room(cur, caps, i) > 0 ==> #[trigger] open_slots_upto(cur, caps, n).contains(i),
    decreases n,
{
    if n > 0 {
        lemma_open_slots(cur, caps, n - 1);
        let prev = open_slots_upto(cur, caps, n - 1);
        let now = open_slots_upto(cur, caps, n);
        assert forall|i: int| 0 <= i < n && slot_room(cur, caps, i) > 0 implies #[trigger] now.contains(i) by {
            if i < n - 1 {
                assert(prev.contains(i));
                let j = choose|j: int| 0 <= j < prev.len() && prev[j] == i;
                assert(now[j] == i);
            } else {
                assert(now[now.len() - 1] == i);
            }
        }
    }
}

/// The slots that can still rise.
fn open_slot_list(steps: &Vec<i64>, caps: &Vec<Option<i64>>) -> (r: Vec<usize>)
    requires
        steps@.len() == 4,
        caps@.len() == 4,
    ensures
        crate::soul::as_ints(r@) == open_slots(steps@, caps@),
        r@.len() <= 4,
{
    let mut avail: Vec<usize> = Vec::new();
    let mut k: usize = 0;
    proof {
        assert(crate::soul::as_ints(avail@) =~= Seq::<int>::empty());
    }
    while k < 4
        invariant
            k <= 4,
            steps@.len() == 4,
            caps@.len() == 4,
            avail@.len() <= k,
            crate::soul::as_ints(avail@) == open_slots_upto(steps@, caps@, k as int),
        decreases 4 - k,
    {
        let open = match caps[k] {
            Some(c) => steps[k] < c,
            None => false,
        };
        let ghost before = avail@;
        if open {
            avail.push(k);
            proof {
                assert(crate::soul::as_ints(avail@) =~= crate::soul::as_ints(before).push(k as int));
            }
        }
        k = k + 1;
    }
    avail
}

/// Raises option steps with the given picks, as `raise_run` says. Gives the new steps and
/// how many steps were raised.
pub fn raise_steps_with(cur: &Vec<i64>, caps: &Vec<Option<i64>>, rounds: i64, picks: &Vec<usize>) -> (r: (Vec<i64>, i64))
    requires
        steps_ok(cur@, caps@),
        1 <= rounds <= 1000,
    ensures
        r.0@ == raise_run(cur@, caps@, rounds as int, picks@, 0).0,
        r.1 == raise_run(cur@, caps@, rounds as int, picks@, 0).1,
{
    let mut steps = cur.clone();
    let mut count: i64 = 0;
    proof {
        assert(steps@ == cur@);
    }
    loop
        invariant
            steps_ok(cur@, caps@),
            1 <= rounds <= 1000,
            steps@.len() == 4,
            0 <= count <= rounds,
            forall|k: int| 0 <= k < 4 ==> cur@[k] <= #[trigger] steps@[k] && steps@[k] - cur@[k] <= slot_room(cur@, caps@, k),
            forall|k: int| 0 <= k < 4 ==> slot_room(steps@, caps@, k) == slot_room(cur@, caps@, k) - (steps@[k] - cur@[k]),
            raise_run(cur@, caps@, rounds as int, picks@, 0).0 == raise_run(steps@, caps@, rounds as int, picks@, count as int).0,
            raise_run(cur@, caps@, rounds as int, picks@, 0).1 == raise_run(steps@, caps@, rounds as int, picks@, count as int).1,
        ensures
            raise_run(cur@, caps@, rounds as int, picks@, 0).0 == steps@,
            raise_run(cur@, caps@, rounds as int, picks@, 0).1 == count,
        decreases rounds - count,
    {
        if count >= rounds {
            break;
        }
        let avail = open_slot_list(&steps, caps);
        proof {
            lemma_open_slots(steps@, caps@, 4);
            assert(avail@.len() == crate::soul::as_ints(avail@).len());
        }
        if avail.len() == 0 {
            break;
        }
        let pick: usize = if (count as u64) < (picks.len() as u64) { picks[count as usize] } else { 0 };
        let s = avail[pick % avail.len()];
        let ghost old_steps = steps@;
        proof {
            let op = open_slots(old_steps, caps@);
            assert(crate::soul::pick_at(picks@, count as int) == pick as int);
            assert(op[(pick % avail.len()) as int] == s as int);
            assert(slot_room(old_steps, caps@, s as int) > 0);
        }
        let v = steps[s] + 1;
        steps.set(s, v);
        proof {
            assert(steps@ == old_steps.update(s as int, v));
            assert forall|k2: int| 0 <= k2 < 4 implies slot_room(steps@, caps@, k2) == slot_room(cur@, caps@, k2) - (steps@[k2] - cur@[k2]) by {
                if k2 != s as int {
                    assert(steps@[k2] == old_steps[k2]);
                }
            }
        }
        count = count + 1;
    }
    (steps, count)
}

/// Raises option steps up to `rounds` times, one step of a random slot below its cap each
/// time (drawn among the slots that can still rise), until no slot can rise; the outcome is
/// the one `raise_steps_with` gives for those draws. Gives the new steps and how many steps
/// were raised: as many as `rounds` allows and the slots' room holds, each slot staying
/// within its cap.
pub fn raise_steps(cur: &Vec<i64>, caps: &Vec<Option<i64>>, rounds: i64) -> (r: (Vec<i64>, i64))
    requires
        steps_ok(cur@, caps@),
        1 <= rounds <= 1000,
    ensures
        exists|picks: Seq<usize>| #![trigger raise_run(cur@, caps@, rounds as int, picks, 0)]
            raise_run(cur@, caps@, rounds as int, picks, 0).2
            && r.0@ == raise_run(cur@, caps@, rounds as int, picks, 0).0
            && r.1 == raise_run(cur@, caps@, rounds as int, picks, 0).1,
        r.0@.len() == 4,
        r.1 == (if rounds < room_of(cur@, caps@) { rounds as int } else { room_of(cur@, caps@) }),
        forall|k: int| 0 <= k < 4 ==> cur@[k] <= #[trigger] r.0@[k] && r.0@[k] - cur@[k] <= slot_room(cur@, caps@, k),
        (r.0@[0] - cur@[0]) + (r.0@[1] - cur@[1]) + (r.0@[2] - cur@[2]) + (r.0@[3] - cur@[3]) == r.1,
{
    let mut steps = cur.clone();
    let mut count: i64 = 0;
    let mut done = false;
    let ghost mut picks: Seq<usize> = Seq::empty();
    proof {
        assert(steps@ == cur@);
    }
    while count < rounds && !done
        invariant
            steps_ok(cur@, caps@),
            1 <= rounds <= 1000,
            steps@.len() == 4,
            0 <= count <= rounds,
            picks.len() == count,
            forall|k: int| 0 <= k < 4 ==> cur@[k] <= #[trigger] steps@[k] && steps@[k] - cur@[k] <= slot_room(cur@, caps@, k),
            (steps@[0] - cur@[0]) + (steps@[1] - cur@[1]) + (steps@[2] - cur@[2]) + (steps@[3] - cur@[3]) == count,
            done ==> room_of(steps@, caps@) == 0,
            done ==> open_slots(steps@, caps@).len() == 0,
            room_of(steps@, caps@) == room_of(cur@, caps@) - count,
            forall|k: int| 0 <= k < 4 ==> slot_room(steps@, caps@, k) == slot_room(cur@, caps@, k) - (steps@[k] - cur@[k]),
            forall|q: Seq<usize>| #![trigger raise_run(cur@, caps@, rounds as int, q, 0)]
                q.len() >= count && q.take(count as int) == picks
                ==> raise_run(cur@, caps@, rounds as int, q, 0) == raise_run(steps@, caps@, rounds as int, q, count as int),
        decreases (rounds - count) * 2 + (if done { 0int } else { 1int }),
    {
        let avail = open_slot_list(&steps, caps);
        proof {
            lemma_open_slots(steps@, caps@, 4);
        }
        if avail.len() == 0 {
            proof {
                assert forall|x: int| 0 <= x < 4 implies slot_room(steps@, caps@, x) == 0 by {
                    if slot_room(steps@, caps@, x) > 0 {
                        assert(open_slots(steps@, caps@).contains(x));
                    }
                }
            }
            done = true;
        } else {
            let s = crate::dice::choose_one(&avail);
            let mut pick: usize = 0;
            while pick < avail.len() && avail[pick] != s
                invariant
                    pick <= avail@.len(),
                    avail@.contains(s),
                    forall|j: int| 0 <= j < pick ==> avail@[j] != s,
                decreases avail@.len() - pick,
            {
                pick = pick + 1;
            }
            proof {
                if pick == avail@.len() {
                    let j = choose|j: int| 0 <= j < avail@.len() && avail@[j] == s;
                    assert(avail@[j] != s);
                }
                assert(pick % avail.len() == pick) by (nonlinear_arith)
                    requires pick < avail.len();
            }
            let ghost old_steps = steps@;
            let ghost newp = picks.push(pick);
            proof {
                let op = open_slots(old_steps, caps@);
                assert(op[pick as int] == s as int);
                assert(slot_room(old_steps, caps@, s as int) > 0);
            }
            let v = steps[s] + 1;
            steps.set(s, v);
            proof {
                assert(steps@ == old_steps.update(s as int, v));
                assert forall|k2: int| 0 <= k2 < 4 implies slot_room(steps@, caps@, k2) == slot_room(cur@, caps@, k2) - (steps@[k2] - cur@[k2]) by {
                    if k2 != s as int {
                        assert(steps@[k2] == old_steps[k2]);
                    }
                }
                assert forall|q: Seq<usize>| #![trigger raise_run(cur@, caps@, rounds as int, q, 0)]
                    q.len() >= count + 1 && q.take(count + 1) == newp
                    implies raise_run(cur@, caps@, rounds as int, q, 0) == raise_run(steps@, caps@, rounds as int, q, count + 1) by {
                    assert(q.take(count as int) =~= picks) by {
                        assert forall|j: int| 0 <= j < count implies q.take(count as int)[j] == picks[j] by {
                            assert(q.take(count + 1)[j] == newp[j]);
                        }
                    }
                    assert(q.take(count + 1)[count as int] == newp[count as int]);
                    assert(crate::soul::pick_at(q, count as int) == pick as int);
                }
                picks = newp;
            }
            count = count + 1;
        }
    }
    proof {
        if !done {
            assert(count == rounds);
        }
        assert(picks.take(count as int) =~= picks);
        assert(raise_run(cur@, caps@, rounds as int, picks, 0) == raise_run(steps@, caps@, rounds as int, picks, count as int));
    }
    (steps, count)
}

/// The material and gold of raising option steps `steps` times at the detail's price:
/// refused when no step could rise (`MaxLevel`) or the request offers fewer materials than
/// the steps take (`NotEnoughMaterial`). Gives the materials and gold to take.
pub fn raise_cost(steps: i64, offered: i64, per_step_items: i64, per_step_gold: i64) -> (r: Result<(i64, i64), ServerError>)
    requires
        0 <= steps <= 1000,
        -0x1_0000_0000_0000 <= per_step_items <= 0x1_0000_0000_0000,
        -0x1_0000_0000_0000 <= per_step_gold <= 0x1_0000_0000_0000,
    ensures
        if steps == 0 {
            r is Err && is_rule(r->Err_0, "MaxLevel"@)
        } else if offered < per_step_items * steps {
            r is Err && is_rule(r->Err_0, "NotEnoughMaterial"@)
        } else {
            r == Ok::<(i64, i64), ServerError>(((per_step_items * steps) as i64, (per_step_gold * steps) as i64))
        },
{
    if steps == 0 {
        return Err(rule("MaxLevel"));
    }
    proof {
        assert(-1000 * 0x1_0000_0000_0000 <= per_step_items * steps <= 1000 * 0x1_0000_0000_0000) by (nonlinear_arith)
            requires 0 <= steps <= 1000, -0x1_0000_0000_0000 <= per_step_items <= 0x1_0000_0000_0000;
        assert(-1000 * 0x1_0000_0000_0000 <= per_step_gold * steps <= 1000 * 0x1_0000_0000_0000) by (nonlinear_arith)
            requires 0 <= steps <= 1000, -0x1_0000_0000_0000 <= per_step_gold <= 0x1_0000_0000_0000;
    }
    let items = per_step_items * steps;
    if offered < items {
        return Err(rule("NotEnoughMaterial"));
    }
    Ok((items, per_step_gold * steps))
}

} // verus!
