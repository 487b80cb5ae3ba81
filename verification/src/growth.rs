//! Hero growth: awakening stages, purification, growth items and limit breaks.
use vstd::prelude::*;
use crate::error::{rule, is_rule, ServerError};
use crate::dice::random_u32;

verus! {

/// A hero's star, transcendence and level.
pub struct HeroLevels {
    pub star: i64,
    pub transcended: i64,
    pub level: i64,
}

/// One awakening stage of the star table.
pub struct StarRow {
    pub star: i64,
    pub transcended: i64,
    /// Team experience granted on reaching this stage.
    pub awake_hero_team_exp: i64,
    pub max_purified: i64,
    /// Gold paid per purification.
    pub gold: i64,
    /// The chance of each purification amount, out of 100.
    pub rates: Vec<i64>,
    pub purify_amounts: Vec<i64>,
    pub awake_item_count: i64,
    pub transcend_item_index: i64,
    pub transcend_item_count: i64,
}

/// True when stage `(a, b)` comes strictly before stage `(c, d)`.
pub open spec fn stage_before(a: int, b: int, c: int, d: int) -> bool {
    a < c || (a == c && b < d)
}

/// The stage after `(s, t)`: one more star below five, then one more transcendence.
pub open spec fn next_stage(s: int, t: int) -> (int, int) {
    (if s < 5 { s + 1 } else { s }, if s == 5 { t + 1 } else { t })
}

/// The position of the first row of stage `(s, t)`.
pub open spec fn stage_row(stars: Seq<StarRow>, s: int, t: int) -> Option<int>
    decreases stars.len(),
{
    if stars.len() == 0 {
        None
    } else {
        match stage_row(stars.drop_last(), s, t) {
            Some(i) => Some(i),
            None => if stars.last().star == s && stars.last().transcended == t {
                Some(stars.len() - 1)
            } else {
                None
            },
        }
    }
}

proof fn lemma_stage_row_bounds(stars: Seq<StarRow>, s: int, t: int)
    ensures
        stage_row(stars, s, t) matches Some(i) ==> 0 <= i < stars.len()
            && stars[i].star == s && stars[i].transcended == t,
    decreases stars.len(),
{
    if stars.len() > 0 {
        lemma_stage_row_bounds(stars.drop_last(), s, t);
    }
}

/// Finds the row of stage `(s, t)`, refused with `CannotTranscendMore` when the table has
/// none.
pub fn star(stars: &Vec<StarRow>, s: i64, t: i64) -> (r: Result<usize, ServerError>)
    ensures
        match stage_row(stars@, s as int, t as int) {
            Some(i) => r == Ok::<usize, ServerError>(i as usize) && i < stars@.len(),
            None => r is Err && is_rule(r->Err_0, "CannotTranscendMore"@),
        },
{
    proof {
        lemma_stage_row_bounds(stars@, s as int, t as int);
    }
    let mut i: usize = 0;
    while i < stars.len()
        invariant
            i <= stars@.len(),
            stage_row(stars@.take(i as int), s as int, t as int) is None,
        decreases stars@.len() - i,
    {
        proof {
            assert(stars@.take(i + 1).drop_last() =~= stars@.take(i as int));
        }
        if stars[i].star == s && stars[i].transcended == t {
            proof {
                assert(stage_row(stars@.take(i + 1), s as int, t as int) == Some(i as int));
                lemma_stage_row_prefix(stars@, i + 1, s as int, t as int);
            }
            return Ok(i);
        }
        i = i + 1;
    }
    proof {
        assert(stars@.take(stars@.len() as int) =~= stars@);
    }
    Err(rule("CannotTranscendMore"))
}

proof fn lemma_stage_row_prefix(stars: Seq<StarRow>, k: int, s: int, t: int)
    requires
        0 <= k <= stars.len(),
        stage_row(stars.take(k), s, t) is Some,
    ensures
        stage_row(stars, s, t) == stage_row(stars.take(k), s, t),
    decreases stars.len() - k,
{
    if k < stars.len() {
        assert(stars.take(k + 1).drop_last() =~= stars.take(k));
        lemma_stage_row_prefix(stars, k + 1, s, t);
    } else {
        assert(stars.take(k) =~= stars);
    }
}

/// Finds the row of the stage after the hero's.
pub fn next_star(stars: &Vec<StarRow>, h: &HeroLevels) -> (r: Result<usize, ServerError>)
    requires
        h.transcended < i64::MAX,
        h.star < i64::MAX,
    ensures
        ({
            let (s, t) = next_stage(h.star as int, h.transcended as int);
            match stage_row(stars@, s, t) {
                Some(i) => r == Ok::<usize, ServerError>(i as usize) && i < stars@.len(),
                None => r is Err && is_rule(r->Err_0, "CannotTranscendMore"@),
            }
        }),
{
    let s = if h.star < 5 { h.star + 1 } else { h.star };
    let t = if h.star == 5 { h.transcended + 1 } else { h.transcended };
    star(stars, s, t)
}

/// A growth item's table row: the heroes it may raise and the stage and level it raises
/// them to.
pub struct GrowthRow {
    pub hero_indices: Vec<i64>,
    pub hero_star: i64,
    pub hero_level: i64,
    pub hero_transcend: i64,
}

/// The larger of two integers.
pub open spec fn max_int(a: int, b: int) -> int {
    if a >= b { a } else { b }
}

/// The stage and level a growth item raises a hero to: each the larger of the hero's and
/// the item's.
pub open spec fn growth_goal(h: HeroLevels, row: GrowthRow) -> (int, int, int) {
    (max_int(h.star as int, row.hero_star as int),
     max_int(h.transcended as int, row.hero_transcend as int),
     max_int(h.level as int, row.hero_level as int))
}

/// The team experience of the stages passed when going from `(s0, t0)` to `(s1, t1)`: the
/// stages after the first and up to the second, each counted per row.
pub open spec fn stages_exp(stars: Seq<StarRow>, s0: int, t0: int, s1: int, t1: int) -> int
    decreases stars.len(),
{
    if stars.len() == 0 {
        0
    } else {
        let r = stars.last();
        stages_exp(stars.drop_last(), s0, t0, s1, t1)
            + if stage_before(s0, t0, r.star as int, r.transcended as int)
                && !stage_before(s1, t1, r.star as int, r.transcended as int) {
                r.awake_hero_team_exp as int
            } else {
                0
            }
    }
}

/// What a growth item does to a hero: the new star, transcendence and level, and the team
/// experience the stages passed grant; refused with `HeroNotSelectable` when it would
/// change nothing.
pub fn growth_target(stars: &Vec<StarRow>, h: &HeroLevels, row: &GrowthRow) -> (r: Result<(i64, i64, i64, i64), ServerError>)
    requires
        ({
            let (s, t, l) = growth_goal(*h, *row);
            i64::MIN <= stages_exp(stars@, h.star as int, h.transcended as int, s, t) <= i64::MAX
        }),
    ensures
        ({
            let (s, t, l) = growth_goal(*h, *row);
            if s == h.star && t == h.transcended && l == h.level {
                r is Err && is_rule(r->Err_0, "HeroNotSelectable"@)
            } else {
                r is Ok && (r->Ok_0).0 == s && (r->Ok_0).1 == t && (r->Ok_0).2 == l
                    && (r->Ok_0).3 == stages_exp(stars@, h.star as int, h.transcended as int, s, t)
            }
        }),
{
    let s = if h.star >= row.hero_star { h.star } else { row.hero_star };
    let t = if h.transcended >= row.hero_transcend { h.transcended } else { row.hero_transcend };
    let level = if h.level >= row.hero_level { h.level } else { row.hero_level };
    if s == h.star && t == h.transcended && level == h.level {
        return Err(rule("HeroNotSelectable"));
    }
    let mut exp: i128 = 0;
    let mut i: usize = 0;
    while i < stars.len()
        invariant
            i <= stars@.len(),
            exp == stages_exp(stars@.take(i as int), h.star as int, h.transcended as int, s as int, t as int),
            -(i as int) * 0x8000_0000_0000_0000 <= exp <= (i as int) * 0x8000_0000_0000_0000,
        decreases stars@.len() - i,
    {
        proof {
            assert(stars@.take(i + 1).drop_last() =~= stars@.take(i as int));
        }
        let v = &stars[i];
        let after_start = h.star < v.star || (h.star == v.star && h.transcended < v.transcended);
        let after_goal = s < v.star || (s == v.star && t < v.transcended);
        if after_start && !after_goal {
            exp = exp + v.awake_hero_team_exp as i128;
        }
        i = i + 1;
    }
    proof {
        assert(stars@.take(stars@.len() as int) =~= stars@);
    }
    Ok((s, t, level, exp as i64))
}

/// True when `c` is the letter `lower` in either case.
pub open spec fn letter(c: char, lower: char, upper: char) -> bool {
    c == lower || c == upper
}

/// True when `s` reads `true` in any mix of upper and lower case (ASCII case-insensitive).
pub open spec fn says_true(s: Seq<char>) -> bool {
    s.len() == 4 && letter(s[0], 't', 'T') && letter(s[1], 'r', 'R')
        && letter(s[2], 'u', 'U') && letter(s[3], 'e', 'E')
}

/// Reads a `true` flag, in any case.
pub fn flag_true(s: &str) -> (r: bool)
    ensures
        r == says_true(s@),
{
    let cs = crate::text::chars_of(s);
    if cs.len() != 4 {
        return false;
    }
    (cs[0] == 't' || cs[0] == 'T') && (cs[1] == 'r' || cs[1] == 'R')
        && (cs[2] == 'u' || cs[2] == 'U') && (cs[3] == 'e' || cs[3] == 'E')
}

} // verus!

verus! {

/// The purification amount a roll in `0..100` gives: the amount of the rate range holding
/// the roll, or 0 past every rate.
pub open spec fn roll_amount(next: StarRow, roll: int) -> int {
    match crate::dice::weighted_index(next.rates@, roll) {
        Some(i) => if i < next.purify_amounts@.len() { next.purify_amounts@[i] as int } else { 0 },
        None => 0,
    }
}

/// True when every roll gives a positive amount.
pub open spec fn rolls_all_pay(next: StarRow) -> bool {
    forall|roll: int| 0 <= roll < 100 ==> #[trigger] roll_amount(next, roll) > 0
}

fn amount_for(next: &StarRow, roll: i64) -> (r: i64)
    ensures
        r == roll_amount(*next, roll as int),
{
    match crate::dice::pick_by_weight(&next.rates, roll) {
        Some(i) => if i < next.purify_amounts.len() { next.purify_amounts[i] } else { 0 },
        None => 0,
    }
}

/// The gold of `steps` purifications at `g` each.
pub open spec fn times(steps: int, g: int) -> int {
    steps * g
}

/// `o` with `k` more steps counted.
pub open spec fn add_steps(o: Option<(int, int)>, k: int) -> Option<(int, int)> {
    match o {
        Some(p) => Some((p.0, p.1 + k)),
        None => None,
    }
}

/// Purification from `value` by the rolls in turn until the stage's maximum: each roll adds
/// its amount, capped at the maximum. Gives the value reached and the number of steps
/// taken, or `None` at the first roll that pays nothing.
pub open spec fn purify_run(next: StarRow, value: int, rolls: Seq<i64>) -> Option<(int, int)>
    decreases rolls.len(),
{
    if rolls.len() == 0 || value >= next.max_purified {
        Some((value, 0))
    } else {
        let a = roll_amount(next, rolls[0] as int);
        if a <= 0 {
            None
        } else {
            let v = if value + a < next.max_purified { value + a } else { next.max_purified as int };
            add_steps(purify_run(next, v, rolls.drop_first()), 1)
        }
    }
}

/// The rolls a purification uses: the first alone when purifying once.
pub open spec fn rolls_used(rolls: Seq<i64>, once: bool) -> Seq<i64> {
    if once && rolls.len() > 1 { rolls.take(1) } else { rolls }
}

/// What purifying with the given rolls answers: refused with `NotEnoughAwakeItem` outside
/// the awakening dungeon (`enter_dungeon` 2) and with `AlreadyMaxPurified` at the maximum;
/// otherwise refused with `AwakeDataNotFound` at the first roll that pays nothing, or the
/// value reached and the stage's gold for each step.
pub open spec fn purify_answer(next: StarRow, old: i64, enter_dungeon: i64, once: bool, rolls: Seq<i64>,
    r: Result<(i64, i64), ServerError>) -> bool
{
    if enter_dungeon != 2 {
        r is Err && is_rule(r->Err_0, "NotEnoughAwakeItem"@)
    } else if old >= next.max_purified {
        r is Err && is_rule(r->Err_0, "AlreadyMaxPurified"@)
    } else {
        match purify_run(next, old as int, rolls_used(rolls, once)) {
            None => r is Err && is_rule(r->Err_0, "AwakeDataNotFound"@),
            Some(p) => r is Ok && (r->Ok_0).0 == p.0 && (r->Ok_0).1 == times(p.1, next.gold as int),
        }
    }
}

/// Whatever the rolls, purification never passes the stage's maximum, never goes down,
/// and takes at most one step (one payment of the stage's gold) per point gained.
pub proof fn lemma_purify_run_bounds(next: StarRow, value: int, rolls: Seq<i64>)
    requires
        value <= next.max_purified,
    ensures
        purify_run(next, value, rolls) matches Some(p) ==> value <= p.0 <= next.max_purified
            && 0 <= p.1 <= p.0 - value,
    decreases rolls.len(),
{
    if rolls.len() > 0 && value < next.max_purified {
        let a = roll_amount(next, rolls[0] as int);
        if a > 0 {
            let v = if value + a < next.max_purified { value + a } else { next.max_purified as int };
            lemma_purify_run_bounds(next, v, rolls.drop_first());
        }
    }
}

/// Purifies a hero back from the awakening dungeon with the given rolls, each in `0..100`:
/// once, or (`once` false) until the stage's maximum. Each step adds the amount of its
/// roll, capped at the maximum, and costs the stage's gold. Gives the new purification and
/// the gold owed.
pub fn purify_with(next: &StarRow, old: i64, enter_dungeon: i64, once: bool, rolls: &Vec<i64>)
    -> (r: Result<(i64, i64), ServerError>)
    requires
        old < next.max_purified ==> i64::MIN <= (next.max_purified - old) * next.gold <= i64::MAX,
    ensures
        purify_answer(*next, old, enter_dungeon, once, rolls@, r),
{
    if enter_dungeon != 2 {
        return Err(rule("NotEnoughAwakeItem"));
    }
    let max = next.max_purified;
    if old >= max {
        return Err(rule("AlreadyMaxPurified"));
    }
    let n: usize = if once && rolls.len() > 1 { 1 } else { rolls.len() };
    let ghost used = rolls_used(rolls@, once);
    proof {
        assert(used.len() == n);
        assert forall|k: int| 0 <= k < n implies used[k] == rolls@[k] by {}
    }
    let mut value = old;
    let mut gold: i64 = 0;
    let ghost mut steps: int = 0;
    let mut i: usize = 0;
    proof {
        assert(used.skip(0) =~= used);
    }
    while i < n && value < max
        invariant
            used == rolls_used(rolls@, once),
            enter_dungeon == 2,
            n == used.len(),
            n <= rolls@.len(),
            forall|k: int| 0 <= k < n ==> used[k] == rolls@[k],
            max == next.max_purified,
            old < max,
            i64::MIN <= (max - old) * next.gold <= i64::MAX,
            i <= n,
            old <= value <= max,
            0 <= steps <= value - old,
            gold == steps * next.gold,
            purify_run(*next, old as int, used) == add_steps(purify_run(*next, value as int, used.skip(i as int)), steps),
        decreases n - i,
    {
        let roll = rolls[i];
        let amount = amount_for(next, roll);
        let ghost rest = used.skip(i as int);
        proof {
            assert(rest[0] == roll);
        }
        if amount <= 0 {
            proof {
                assert(rest.len() > 0);
                assert(purify_run(*next, value as int, rest) is None);
                assert(purify_run(*next, old as int, used) is None);
            }
            return Err(rule("AwakeDataNotFound"));
        }
        let sum = value as i128 + amount as i128;
        let v = if sum < max as i128 { sum as i64 } else { max };
        proof {
            assert(rest.drop_first() =~= used.skip(i + 1));
            let d = (max - old) as int;
            let s1 = steps + 1;
            let g = next.gold as int;
            assert(i64::MIN <= s1 * g <= i64::MAX) by (nonlinear_arith)
                requires
                    1 <= s1 <= d,
                    i64::MIN <= d * g <= i64::MAX;
            assert(s1 * g == steps * g + g) by (nonlinear_arith)
                requires
                    s1 == steps + 1;
        }
        value = v;
        gold = gold + next.gold;
        proof {
            steps = steps + 1;
        }
        i = i + 1;
    }
    proof {
        assert(purify_run(*next, value as int, used.skip(i as int)) == Some((value as int, 0int)));
        assert(gold == times(steps, next.gold as int));
    }
    Ok((value, gold))
}

/// Purifies a hero back from the awakening dungeon (`enter_dungeon` 2), whose purification
/// stands at `old` of the stage's maximum: once, or (`once` false) until the maximum. Draws
/// a roll in `0..100` for each step and answers as `purify_with` does with those rolls.
pub fn purify(next: &StarRow, old: i64, enter_dungeon: i64, once: bool) -> (r: Result<(i64, i64), ServerError>)
    requires
        old < next.max_purified ==> i64::MIN <= (next.max_purified - old) * next.gold <= i64::MAX,
    ensures
        exists|rolls: Seq<i64>| #![trigger purify_answer(*next, old, enter_dungeon, once, rolls, r)]
            (forall|k: int| 0 <= k < rolls.len() ==> 0 <= #[trigger] rolls[k] < 100)
            && purify_answer(*next, old, enter_dungeon, once, rolls, r),
        enter_dungeon == 2 && old < next.max_purified && rolls_all_pay(*next) ==> r is Ok,
        r is Ok ==> ({
            let (value, gold) = r->Ok_0;
            &&& old < value <= next.max_purified
            &&& (!once ==> value == next.max_purified)
            &&& (once ==> gold == next.gold)
        }),
{
    let mut rolls: Vec<i64> = Vec::new();
    if enter_dungeon == 2 && old < next.max_purified {
        let max = next.max_purified;
        let mut value = old;
        loop
            invariant_except_break
                old <= value < max,
                purify_run(*next, old as int, rolls@) == Some((value as int, rolls@.len() as int)),
                once ==> rolls@.len() == 0,
            invariant
                max == next.max_purified,
                old < max,
                forall|k: int| 0 <= k < rolls@.len() ==> 0 <= #[trigger] rolls@[k] < 100,
            ensures
                rolls@.len() >= 1,
                once ==> rolls@.len() == 1,
                purify_run(*next, old as int, rolls@) matches Some(p) ==> old < p.0 && p.1 == rolls@.len()
                    && (!once ==> p.0 == max),
            decreases max - value,
        {
            let roll = (random_u32() % 100) as i64;
            let amount = amount_for(next, roll);
            let ghost before = rolls@;
            rolls.push(roll);
            proof {
                lemma_purify_run_append(*next, old as int, before, roll);
            }
            if amount <= 0 {
                break;
            }
            let sum = value as i128 + amount as i128;
            value = if sum < max as i128 { sum as i64 } else { max };
            if once || value >= max {
                break;
            }
        }
        proof {
            assert(rolls_used(rolls@, once) == rolls@);
            lemma_all_pay_runs(*next, old as int, rolls@);
            lemma_purify_run_bounds(*next, old as int, rolls@);
            assert(times(1, next.gold as int) == next.gold);
        }
    }
    purify_with(next, old, enter_dungeon, once, &rolls)
}

proof fn lemma_purify_run_append(next: StarRow, value: int, rolls: Seq<i64>, roll: i64)
    requires
        purify_run(next, value, rolls) matches Some(p) && p.0 < next.max_purified,
    ensures
        ({
            let p = purify_run(next, value, rolls)->0;
            let a = roll_amount(next, roll as int);
            purify_run(next, value, rolls.push(roll)) == if a <= 0 {
                None
            } else {
                Some((if p.0 + a < next.max_purified { p.0 + a } else { next.max_purified as int }, p.1 + 1))
            }
        }),
    decreases rolls.len(),
{
    if rolls.len() == 0 {
        let a = roll_amount(next, roll as int);
        let v = if value + a < next.max_purified { value + a } else { next.max_purified as int };
        assert(rolls.push(roll).drop_first() =~= Seq::<i64>::empty());
        assert(rolls.push(roll)[0] == roll);
        assert(purify_run(next, v, Seq::<i64>::empty()) == Some((v, 0int)));
    } else {
        let a0 = roll_amount(next, rolls[0] as int);
        let v = if value + a0 < next.max_purified { value + a0 } else { next.max_purified as int };
        assert(rolls.push(roll).drop_first() =~= rolls.drop_first().push(roll));
        assert(rolls.push(roll)[0] == rolls[0]);
        lemma_purify_run_append(next, v, rolls.drop_first(), roll);
    }
}

proof fn lemma_all_pay_runs(next: StarRow, value: int, rolls: Seq<i64>)
    requires
        forall|k: int| 0 <= k < rolls.len() ==> 0 <= #[trigger] rolls[k] < 100,
    ensures
        rolls_all_pay(next) ==> purify_run(next, value, rolls) is Some,
    decreases rolls.len(),
{
    if rolls.len() > 0 && value < next.max_purified {
        let a = roll_amount(next, rolls[0] as int);
        let v = if value + a < next.max_purified { value + a } else { next.max_purified as int };
        lemma_all_pay_runs(next, v, rolls.drop_first());
    }
}

/// Refuses purification when the stage's material is not held.
pub fn awake_material_held(owned: i64) -> (r: Result<(), ServerError>)
    ensures
        owned < 1 ==> r is Err && is_rule(r->Err_0, "NotEnoughAwakeItem"@),
        owned >= 1 ==> r is Ok,
{
    if owned < 1 {
        return Err(rule("NotEnoughAwakeItem"));
    }
    Ok(())
}

/// Refuses to enter the awakening dungeon while already in it.
pub fn challenge_check(enter_dungeon: i64) -> (r: Result<(), ServerError>)
    ensures
        enter_dungeon != 0 ==> r is Err && is_rule(r->Err_0, "AlreadyInDungeon"@),
        enter_dungeon == 0 ==> r is Ok,
{
    if enter_dungeon != 0 {
        return Err(rule("AlreadyInDungeon"));
    }
    Ok(())
}

/// Entry `k` of `s`, or 0.
pub open spec fn entry_or_zero(s: Seq<i64>, k: int) -> i64 {
    if 0 <= k < s.len() { s[k] } else { 0 }
}

fn entry(s: &Vec<i64>, k: i64) -> (r: i64)
    ensures
        r == entry_or_zero(s@, k as int),
{
    if k >= 0 && (k as u64) < (s.len() as u64) { s[k as usize] } else { 0 }
}

/// The material an awakening step takes: by star below five stars, by transcendence at
/// five.
pub fn awake_material(awake_items: &Vec<i64>, transcend_items: &Vec<i64>, h: &HeroLevels) -> (r: i64)
    ensures
        r == (if h.star == 5 {
            entry_or_zero(transcend_items@, h.transcended as int)
        } else {
            entry_or_zero(awake_items@, h.star as int)
        }),
{
    if h.star == 5 { entry(transcend_items, h.transcended) } else { entry(awake_items, h.star) }
}

/// The items entering the awakening dungeon takes: the three challenge items of the hero's
/// tag (the transcendence ones at five stars), each in the next stage's count, and at five
/// stars the next stage's transcendence item when it asks for one.
pub fn challenge_items(star: i64, normal: &Vec<i64>, transcend: &Vec<i64>, next: &StarRow) -> (r: Vec<(i64, i64)>)
    ensures
        ({
            let items = if star == 5 { transcend@ } else { normal@ };
            let base = seq![
                (entry_or_zero(items, 0), next.awake_item_count),
                (entry_or_zero(items, 1), next.awake_item_count),
                (entry_or_zero(items, 2), next.awake_item_count)
            ];
            r@ == if star == 5 && next.transcend_item_count > 0 {
                base.push((next.transcend_item_index, next.transcend_item_count))
            } else {
                base
            }
        }),
{
    let items = if star == 5 { transcend } else { normal };
    let mut out: Vec<(i64, i64)> = Vec::new();
    out.push((entry(items, 0), next.awake_item_count));
    out.push((entry(items, 1), next.awake_item_count));
    out.push((entry(items, 2), next.awake_item_count));
    if star == 5 && next.transcend_item_count > 0 {
        out.push((next.transcend_item_index, next.transcend_item_count));
    }
    proof {
        let items_v = if star == 5 { transcend@ } else { normal@ };
        assert(out@.take(3) =~= seq![
            (entry_or_zero(items_v, 0), next.awake_item_count),
            (entry_or_zero(items_v, 1), next.awake_item_count),
            (entry_or_zero(items_v, 2), next.awake_item_count)
        ]);
    }
    out
}

/// Checks a star-up (`to_transcend` false) or transcendence: the hero must be below five
/// stars for a star-up and at five for a transcendence (`NotMaxHeroStar`), and be back from
/// the dungeon fully purified (`NotEnoughPurified`).
pub fn advance_check(to_transcend: bool, h: &HeroLevels, purified: i64, enter_dungeon: i64, next: &StarRow)
    -> (r: Result<(), ServerError>)
    ensures
        to_transcend != (h.star == 5) ==> r is Err && is_rule(r->Err_0, "NotMaxHeroStar"@),
        to_transcend == (h.star == 5) && (purified < next.max_purified || enter_dungeon != 2)
            ==> r is Err && is_rule(r->Err_0, "NotEnoughPurified"@),
        to_transcend == (h.star == 5) && purified >= next.max_purified && enter_dungeon == 2 ==> r is Ok,
{
    if to_transcend != (h.star == 5) {
        return Err(rule("NotMaxHeroStar"));
    }
    if purified < next.max_purified || enter_dungeon != 2 {
        return Err(rule("NotEnoughPurified"));
    }
    Ok(())
}

} // verus!

verus! {

/// One limit-break level of a hero: its materials and the experience each level past 99
/// asks for.
pub struct LimitBreakRow {
    pub hero_index: i64,
    pub limit_break_level: i64,
    pub req_local_exp: i64,
    /// `(item, count)` of each material.
    pub materials: Vec<(i64, i64)>,
}

/// The first row of `hero` at limit-break level `level`.
pub open spec fn limit_row(rows: Seq<LimitBreakRow>, hero: int, level: int) -> Option<int>
    decreases rows.len(),
{
    if rows.len() == 0 {
        None
    } else {
        match limit_row(rows.drop_last(), hero, level) {
            Some(i) => Some(i),
            None => if rows.last().hero_index == hero && rows.last().limit_break_level == level {
                Some(rows.len() - 1)
            } else {
                None
            },
        }
    }
}

proof fn lemma_limit_row(rows: Seq<LimitBreakRow>, hero: int, level: int)
    ensures
        limit_row(rows, hero, level) matches Some(i) ==> 0 <= i < rows.len()
            && rows[i].hero_index == hero && rows[i].limit_break_level == level,
    decreases rows.len(),
{
    if rows.len() > 0 {
        lemma_limit_row(rows.drop_last(), hero, level);
    }
}

proof fn lemma_limit_row_prefix(rows: Seq<LimitBreakRow>, k: int, hero: int, level: int)
    requires
        0 <= k <= rows.len(),
        limit_row(rows.take(k), hero, level) is Some,
    ensures
        limit_row(rows, hero, level) == limit_row(rows.take(k), hero, level),
    decreases rows.len() - k,
{
    if k < rows.len() {
        assert(rows.take(k + 1).drop_last() =~= rows.take(k));
        lemma_limit_row_prefix(rows, k + 1, hero, level);
    } else {
        assert(rows.take(k) =~= rows);
    }
}

fn find_limit_row(rows: &Vec<LimitBreakRow>, hero: i64, level: i64) -> (r: Option<usize>)
    ensures
        r is Some <==> limit_row(rows@, hero as int, level as int) is Some,
        r is Some ==> limit_row(rows@, hero as int, level as int) == Some(r->0 as int) && r->0 < rows@.len(),
{
    proof {
        lemma_limit_row(rows@, hero as int, level as int);
    }
    let mut i: usize = 0;
    while i < rows.len()
        invariant
            i <= rows@.len(),
            limit_row(rows@.take(i as int), hero as int, level as int) is None,
        decreases rows@.len() - i,
    {
        proof {
            assert(rows@.take(i + 1).drop_last() =~= rows@.take(i as int));
        }
        if rows[i].hero_index == hero && rows[i].limit_break_level == level {
            proof {
                assert(limit_row(rows@.take(i + 1), hero as int, level as int) == Some(i as int));
                lemma_limit_row_prefix(rows@, i + 1, hero as int, level as int);
            }
            return Some(i);
        }
        i = i + 1;
    }
    proof {
        assert(rows@.take(rows@.len() as int) =~= rows@);
    }
    None
}

/// The materials of a row that are asked for (a positive count).
pub open spec fn asked_materials(m: Seq<(i64, i64)>) -> Seq<(i64, i64)>
    decreases m.len(),
{
    if m.len() == 0 {
        Seq::empty()
    } else if m.last().1 > 0 {
        asked_materials(m.drop_last()).push(m.last())
    } else {
        asked_materials(m.drop_last())
    }
}

/// Raises a fully transcended hero's limit-break level by one. The hero must be at least
/// level `100 + current` and the next level must be in the table (both else
/// `InvalidValue`); gives the new level and the materials it takes.
pub fn limit_break_level_up(hero: i64, h: &HeroLevels, current: i64, rows: &Vec<LimitBreakRow>)
    -> (r: Result<(i64, Vec<(i64, i64)>), ServerError>)
    requires
        current < i64::MAX - 100,
    ensures
        h.transcended != 5 || h.level < 100 + current
            || limit_row(rows@, hero as int, current + 1) is None
            ==> r is Err && is_rule(r->Err_0, "InvalidValue"@),
        h.transcended == 5 && h.level >= 100 + current
            && limit_row(rows@, hero as int, current + 1) is Some
            ==> r is Ok && (r->Ok_0).0 == current + 1
                && (r->Ok_0).1@ == asked_materials(rows@[limit_row(rows@, hero as int, current + 1)->0].materials@),
{
    if h.transcended != 5 || h.level < 100 + current {
        return Err(rule("InvalidValue"));
    }
    let i = match find_limit_row(rows, hero, current + 1) {
        Some(i) => i,
        None => { return Err(rule("InvalidValue")); },
    };
    let m = &rows[i].materials;
    proof {
        assert(limit_row(rows@, hero as int, current + 1) == Some(i as int));
        assert(m@ == rows@[limit_row(rows@, hero as int, current + 1)->0].materials@);
    }
    let mut out: Vec<(i64, i64)> = Vec::new();
    let mut k: usize = 0;
    while k < m.len()
        invariant
            k <= m@.len(),
            out@ == asked_materials(m@.take(k as int)),
        decreases m@.len() - k,
    {
        proof {
            assert(m@.take(k + 1).drop_last() =~= m@.take(k as int));
        }
        if m[k].1 > 0 {
            out.push(m[k]);
        }
        k = k + 1;
    }
    proof {
        assert(m@.take(m@.len() as int) =~= m@);
    }
    Ok((current + 1, out))
}

/// An experience item of limit breaking: `(item, experience per item)`.
pub open spec fn exp_item(items: Seq<(i64, i64)>, id: int) -> Option<int>
    decreases items.len(),
{
    if items.len() == 0 {
        None
    } else {
        match exp_item(items.drop_last(), id) {
            Some(a) => Some(a),
            None => if items.last().0 == id { Some(items.last().1 as int) } else { None },
        }
    }
}

/// The experience after feeding the first `k` `(item, count)` pairs, or nothing when a
/// count lies outside `1..=1000`, an item gives no experience, or the total leaves `i64`.
pub open spec fn fed_exp(exp: int, ids: Seq<i64>, counts: Seq<i64>, items: Seq<(i64, i64)>, k: int) -> Option<int>
    decreases k,
{
    if k <= 0 {
        Some(exp)
    } else {
        match fed_exp(exp, ids, counts, items, k - 1) {
            None => None,
            Some(e) => {
                let c = counts[k - 1];
                if !(1 <= c <= 1000) {
                    None
                } else {
                    match exp_item(items, ids[k - 1] as int) {
                        None => None,
                        Some(a) => if i64::MIN <= e + a * c <= i64::MAX { Some(e + a * c) } else { None },
                    }
                }
            },
        }
    }
}

/// Feeding `c` of one limit-break item adds `c` times the experience that feeding one of
/// it adds, and feeding one adds the item's experience amount (nothing for an item without
/// one).
pub proof fn lemma_fed_exp_scales(exp: int, id: i64, c: i64, items: Seq<(i64, i64)>)
    requires
        1 <= c <= 1000,
    ensures
        fed_exp(exp, seq![id], seq![c], items, 1) matches Some(e)
            ==> fed_exp(0, seq![id], seq![1i64], items, 1) matches Some(g) && e == exp + c * g,
        fed_exp(0, seq![id], seq![1i64], items, 1) == exp_item(items, id as int),
{
    reveal_with_fuel(fed_exp, 2);
    lemma_exp_item_range(items, id as int);
    match exp_item(items, id as int) {
        Some(a) => {
            assert(a * c == c * a) by (nonlinear_arith);
            assert(a * 1 == a);
        },
        None => {},
    }
}

/// Feeding a list of `(item, count)` pairs adds, pair by pair, what feeding each pair alone
/// adds: the experience after the first `k + 1` pairs is the experience after the first
/// `k` plus the gain of pair `k`.
pub proof fn lemma_fed_exp_adds(exp: int, ids: Seq<i64>, counts: Seq<i64>, items: Seq<(i64, i64)>, k: int)
    requires
        0 <= k < ids.len(),
        ids.len() == counts.len(),
        forall|j: int| 0 <= j < items.len() ==> -9223372036854775 <= #[trigger] items[j].1 <= 9223372036854775,
    ensures
        fed_exp(exp, ids, counts, items, k + 1) matches Some(e)
            ==> fed_exp(exp, ids, counts, items, k) matches Some(e0)
                && fed_exp(0, seq![ids[k]], seq![counts[k]], items, 1) matches Some(g) && e == e0 + g,
{
    reveal_with_fuel(fed_exp, 2);
    lemma_exp_item_in(items, ids[k] as int);
    assert(seq![ids[k]][0] == ids[k]);
    assert(seq![counts[k]][0] == counts[k]);
    match exp_item(items, ids[k] as int) {
        Some(a) => {
            let c = counts[k];
            if 1 <= c <= 1000 {
                assert(-9223372036854775000 <= a * c <= 9223372036854775000) by (nonlinear_arith)
                    requires
                        -9223372036854775 <= a <= 9223372036854775,
                        1 <= c <= 1000;
            }
        },
        None => {},
    }
}

proof fn lemma_exp_item_range(items: Seq<(i64, i64)>, id: int)
    ensures
        exp_item(items, id) matches Some(a) ==> i64::MIN <= a <= i64::MAX,
    decreases items.len(),
{
    if items.len() > 0 {
        lemma_exp_item_range(items.drop_last(), id);
    }
}

/// The level and experience left after spending experience on levels from `level` up to
/// `cap`: each level asks for its row's experience, and spending stops at a level without
/// a row (nothing) or one asking for no or more experience than is left.
pub open spec fn spend_levels(level: int, exp: int, cap: int, hero: int, rows: Seq<LimitBreakRow>) -> Option<(int, int)>
    decreases cap - level,
{
    if level >= cap {
        Some((level, exp))
    } else {
        match limit_row(rows, hero, level - 99) {
            None => None,
            Some(i) => {
                let need = rows[i].req_local_exp as int;
                if need <= 0 || exp < need {
                    Some((level, exp))
                } else {
                    spend_levels(level + 1, exp - need, cap, hero, rows)
                }
            },
        }
    }
}

fn exp_of(items: &Vec<(i64, i64)>, id: i64) -> (r: Option<i64>)
    ensures
        r is Some <==> exp_item(items@, id as int) is Some,
        r is Some ==> exp_item(items@, id as int) == Some(r->0 as int),
{
    let mut i: usize = 0;
    while i < items.len()
        invariant
            i <= items@.len(),
            exp_item(items@.take(i as int), id as int) is None,
        decreases items@.len() - i,
    {
        proof {
            assert(items@.take(i + 1).drop_last() =~= items@.take(i as int));
        }
        if items[i].0 == id {
            proof {
                lemma_exp_item_prefix(items@, i + 1, id as int);
            }
            return Some(items[i].1);
        }
        i = i + 1;
    }
    proof {
        assert(items@.take(items@.len() as int) =~= items@);
    }
    None
}

proof fn lemma_exp_item_prefix(items: Seq<(i64, i64)>, k: int, id: int)
    requires
        0 <= k <= items.len(),
        exp_item(items.take(k), id) is Some,
    ensures
        exp_item(items, id) == exp_item(items.take(k), id),
    decreases items.len() - k,
{
    if k < items.len() {
        assert(items.take(k + 1).drop_last() =~= items.take(k));
        lemma_exp_item_prefix(items, k + 1, id);
    } else {
        assert(items.take(k) =~= items);
    }
}

proof fn lemma_fed_exp_fails(exp: int, ids: Seq<i64>, counts: Seq<i64>, items: Seq<(i64, i64)>, k: int, n: int)
    requires
        0 <= k <= n,
        fed_exp(exp, ids, counts, items, k) is None,
    ensures
        fed_exp(exp, ids, counts, items, n) is None,
    decreases n - k,
{
    if k < n {
        lemma_fed_exp_fails(exp, ids, counts, items, k + 1, n);
    }
}

/// Feeds experience items to a fully transcended hero between limit-break levels: refused
/// with `InvalidValue` outside that state, for mismatched lists, a bad count or item, an
/// experience overflow, or a level missing from the table. Levels rise while the
/// experience covers them, up to `100 + current`, where the experience left is dropped.
/// Gives the new level, the experience left and the `(item, count)` pairs consumed.
pub fn limit_break_exp_up(
    hero: i64,
    h: &HeroLevels,
    current: i64,
    exp: i64,
    ids: &Vec<i64>,
    counts: &Vec<i64>,
    items: &Vec<(i64, i64)>,
    rows: &Vec<LimitBreakRow>,
) -> (r: Result<(i64, i64, Vec<(i64, i64)>), ServerError>)
    requires
        current < i64::MAX - 100,
        forall|k: int| 0 <= k < items@.len() ==> -9223372036854775 <= #[trigger] items@[k].1 <= 9223372036854775,
    ensures
        ({
            let cap = 100 + current;
            let ok_state = h.transcended == 5 && current > 0 && h.level < cap && ids@.len() == counts@.len();
            let fed = fed_exp(exp as int, ids@, counts@, items@, ids@.len() as int);
            &&& !ok_state ==> r is Err && is_rule(r->Err_0, "InvalidValue"@)
            &&& ok_state && fed is None ==> r is Err && is_rule(r->Err_0, "InvalidValue"@)
            &&& ok_state && fed is Some ==> match spend_levels(h.level as int, fed->0, cap, hero as int, rows@) {
                None => r is Err && is_rule(r->Err_0, "InvalidValue"@),
                Some((level, left)) => r is Ok && (r->Ok_0).0 == level
                    && (r->Ok_0).1 == (if level >= cap { 0 } else { left })
                    && (r->Ok_0).2@ == ids@.zip_with(counts@),
            }
        }),
{
    if h.transcended != 5 || current <= 0 || h.level >= 100 + current {
        return Err(rule("InvalidValue"));
    }
    if ids.len() != counts.len() {
        return Err(rule("InvalidValue"));
    }
    let mut total: i64 = exp;
    let mut used: Vec<(i64, i64)> = Vec::new();
    let mut k: usize = 0;
    while k < ids.len()
        invariant
            ids@.len() == counts@.len(),
            k <= ids@.len(),
            forall|j: int| 0 <= j < items@.len() ==> -9223372036854775 <= #[trigger] items@[j].1 <= 9223372036854775,
            fed_exp(exp as int, ids@, counts@, items@, k as int) == Some(total as int),
            used@ == ids@.take(k as int).zip_with(counts@.take(k as int)),
        decreases ids@.len() - k,
    {
        let c = counts[k];
        if c < 1 || c > 1000 {
            proof {
                reveal_with_fuel(fed_exp, 2);
                lemma_fed_exp_fails(exp as int, ids@, counts@, items@, k + 1, ids@.len() as int);
            }
            return Err(rule("InvalidValue"));
        }
        let a = match exp_of(items, ids[k]) {
            Some(a) => a,
            None => {
                proof {
                    reveal_with_fuel(fed_exp, 2);
                    lemma_fed_exp_fails(exp as int, ids@, counts@, items@, k + 1, ids@.len() as int);
                }
                return Err(rule("InvalidValue"));
            },
        };
        proof {
            reveal_with_fuel(fed_exp, 2);
            assert(-9223372036854775 <= a <= 9223372036854775) by {
                lemma_exp_item_in(items@, ids@[k as int] as int);
            }
            assert(-9223372036854775000 <= a * c <= 9223372036854775000) by (nonlinear_arith)
                requires
                    -9223372036854775 <= a <= 9223372036854775,
                    1 <= c <= 1000;
        }
        let gain = a * c;
        let next = match total.checked_add(gain) {
            Some(v) => v,
            None => {
                proof {
                    reveal_with_fuel(fed_exp, 2);
                    lemma_fed_exp_fails(exp as int, ids@, counts@, items@, k + 1, ids@.len() as int);
                }
                return Err(rule("InvalidValue"));
            },
        };
        proof {
            assert(fed_exp(exp as int, ids@, counts@, items@, k + 1) == Some(next as int));
        }
        total = next;
        used.push((ids[k], c));
        proof {
            assert(ids@.take(k + 1).zip_with(counts@.take(k + 1))
                =~= ids@.take(k as int).zip_with(counts@.take(k as int)).push((ids@[k as int], counts@[k as int])));
        }
        k = k + 1;
    }
    proof {
        assert(ids@.take(ids@.len() as int) =~= ids@);
        assert(counts@.take(counts@.len() as int) =~= counts@);
    }
    let cap = 100 + current;
    let mut level = h.level;
    let mut left = total;
    while level < cap
        invariant
            h.level <= level <= cap,
            cap == 100 + current,
            current < i64::MAX - 100,
            h.transcended == 5 && current > 0 && h.level < cap && ids@.len() == counts@.len(),
            fed_exp(exp as int, ids@, counts@, items@, ids@.len() as int) == Some(total as int),
            used@ == ids@.zip_with(counts@),
            spend_levels(h.level as int, total as int, cap as int, hero as int, rows@)
                == spend_levels(level as int, left as int, cap as int, hero as int, rows@),
        ensures
            h.level <= level <= cap,
            spend_levels(h.level as int, total as int, cap as int, hero as int, rows@)
                == Some((level as int, left as int)),
        decreases cap - level,
    {
        if level < i64::MIN + 99 {
            proof {
                lemma_limit_row(rows@, hero as int, level - 99);
            }
            return Err(rule("InvalidValue"));
        }
        let i = match find_limit_row(rows, hero, level - 99) {
            Some(i) => i,
            None => { return Err(rule("InvalidValue")); },
        };
        let need = rows[i].req_local_exp;
        if need <= 0 || left < need {
            break;
        }
        left = left - need;
        level = level + 1;
    }
    if level >= cap {
        left = 0;
    }
    Ok((level, left, used))
}

proof fn lemma_exp_item_in(items: Seq<(i64, i64)>, id: int)
    requires
        forall|k: int| 0 <= k < items.len() ==> -9223372036854775 <= #[trigger] items[k].1 <= 9223372036854775,
    ensures
        exp_item(items, id) matches Some(a) ==> -9223372036854775 <= a <= 9223372036854775,
    decreases items.len(),
{
    if items.len() > 0 {
        assert forall|k: int| 0 <= k < items.drop_last().len() implies -9223372036854775 <= #[trigger] items.drop_last()[k].1 <= 9223372036854775 by {
            assert(items.drop_last()[k] == items[k]);
        }
        lemma_exp_item_in(items.drop_last(), id);
        assert(items.last() == items[items.len() - 1]);
    }
}

} // verus!

verus! {

/// A costume of the costume table: its key, its costume index and the category of its
/// group, when it has one.
pub struct CostumeEntry {
    pub id: i64,
    pub costume_index: i64,
    pub category: Option<i64>,
}

/// A costume selector item's row.
pub struct CostumeSelector {
    pub select_type: i64,
    pub costume_indices: Vec<i64>,
    pub categories: Vec<i64>,
    pub all_owned_reward_index: i64,
}

/// True when a selector offers a costume: listed by index, or in a listed category.
pub open spec fn offers(sel: CostumeSelector, c: CostumeEntry) -> bool {
    sel.costume_indices@.contains(c.costume_index)
        || (c.category is Some && sel.categories@.contains(c.category->0))
}

/// The keys of the costumes a selector offers, in table order.
pub open spec fn offered(sel: CostumeSelector, costumes: Seq<CostumeEntry>) -> Seq<i64>
    decreases costumes.len(),
{
    if costumes.len() == 0 {
        Seq::empty()
    } else if offers(sel, costumes.last()) {
        offered(sel, costumes.drop_last()).push(costumes.last().id)
    } else {
        offered(sel, costumes.drop_last())
    }
}

fn listed(v: &Vec<i64>, x: i64) -> (r: bool)
    ensures
        r == v@.contains(x),
{
    let mut i: usize = 0;
    while i < v.len()
        invariant
            i <= v@.len(),
            forall|k: int| 0 <= k < i ==> v@[k] != x,
        decreases v@.len() - i,
    {
        if v[i] == x {
            proof {
                assert(v@[i as int] == x);
            }
            return true;
        }
        i = i + 1;
    }
    false
}

/// Lists the costumes a selector offers.
pub fn costume_choices(sel: &CostumeSelector, costumes: &Vec<CostumeEntry>) -> (r: Vec<i64>)
    ensures
        r@ == offered(*sel, costumes@),
{
    let mut out: Vec<i64> = Vec::new();
    let mut i: usize = 0;
    while i < costumes.len()
        invariant
            i <= costumes@.len(),
            out@ == offered(*sel, costumes@.take(i as int)),
        decreases costumes@.len() - i,
    {
        proof {
            assert(costumes@.take(i + 1).drop_last() =~= costumes@.take(i as int));
        }
        let c = &costumes[i];
        let by_category = match c.category {
            Some(g) => listed(&sel.categories, g),
            None => false,
        };
        if listed(&sel.costume_indices, c.costume_index) || by_category {
            out.push(c.id);
        }
        i = i + 1;
    }
    proof {
        assert(costumes@.take(costumes@.len() as int) =~= costumes@);
    }
    out
}

/// What a costume selector gives.
pub enum CostumePick {
    /// Every offered costume is owned: the selector's reward instead.
    AllOwnedReward(i64),
    /// The chosen costume.
    Costume(i64),
}

/// Uses a costume selector: a selector of another type is refused (`ItemTypeMismatch`), as
/// one that offers nothing (`CostumeDataNotFound`). Asking for the other reward
/// (`GetOtherReward` true) needs every offered costume owned (`AllCostumeNotOwned`);
/// otherwise the chosen costume (`CostumeIndex`) must be offered (`CostumeDataNotFound`)
/// and not owned (`AlreadyHaveCostume`).
pub fn costume_select(sel: &CostumeSelector, costumes: &Vec<CostumeEntry>, owned: &Vec<i64>, req: &crate::forms::Request)
    -> (r: Result<CostumePick, ServerError>)
    ensures
        ({
            let ch = offered(*sel, costumes@);
            if sel.select_type != 0 {
                r is Err && is_rule(r->Err_0, "ItemTypeMismatch"@)
            } else if ch.len() == 0 {
                r is Err && is_rule(r->Err_0, "CostumeDataNotFound"@)
            } else if says_true(req.text_of("GetOtherReward"@)) {
                if exists|i: int| 0 <= i < ch.len() && !owned@.contains(#[trigger] ch[i]) {
                    r is Err && is_rule(r->Err_0, "AllCostumeNotOwned"@)
                } else {
                    r == Ok::<CostumePick, ServerError>(CostumePick::AllOwnedReward(sel.all_owned_reward_index))
                }
            } else {
                match req.number_of("CostumeIndex"@, 0) {
                    None => r is Err && is_rule(r->Err_0, "InvalidValue"@),
                    Some(v) => if !(i32::MIN <= v <= i32::MAX) {
                        r is Err && is_rule(r->Err_0, "ItemDataNotFound"@)
                    } else if !ch.contains(v) {
                        r is Err && is_rule(r->Err_0, "CostumeDataNotFound"@)
                    } else if owned@.contains(v) {
                        r is Err && is_rule(r->Err_0, "AlreadyHaveCostume"@)
                    } else {
                        r == Ok::<CostumePick, ServerError>(CostumePick::Costume(v))
                    },
                }
            }
        }),
{
    if sel.select_type != 0 {
        return Err(rule("ItemTypeMismatch"));
    }
    let ch = costume_choices(sel, costumes);
    if ch.len() == 0 {
        return Err(rule("CostumeDataNotFound"));
    }
    if flag_true(req.text("GetOtherReward")) {
        let mut i: usize = 0;
        while i < ch.len()
            invariant
                i <= ch@.len(),
                ch@ == offered(*sel, costumes@),
                sel.select_type == 0,
                ch@.len() > 0,
                says_true(req.text_of("GetOtherReward"@)),
                forall|k: int| 0 <= k < i ==> owned@.contains(#[trigger] ch@[k]),
            decreases ch@.len() - i,
        {
            if !listed(owned, ch[i]) {
                return Err(rule("AllCostumeNotOwned"));
            }
            i = i + 1;
        }
        return Ok(CostumePick::AllOwnedReward(sel.all_owned_reward_index));
    }
    let selected = crate::inventory::item_index(req, "CostumeIndex")?;
    if !listed(&ch, selected as i64) {
        return Err(rule("CostumeDataNotFound"));
    }
    if listed(owned, selected as i64) {
        return Err(rule("AlreadyHaveCostume"));
    }
    Ok(CostumePick::Costume(selected as i64))
}

/// Why claiming a growth item's other reward is refused: the first listed hero not owned
/// (`NoHero`) or below the item's stage or level (`AllHeroNotOwned`).
pub open spec fn growth_claim_error(row: GrowthRow, found: Seq<Option<HeroLevels>>) -> Option<Seq<char>>
    decreases found.len(),
{
    if found.len() == 0 {
        None
    } else {
        match growth_claim_error(row, found.drop_last()) {
            Some(e) => Some(e),
            None => match found.last() {
                None => Some("NoHero"@),
                Some(h) => if h.star < row.hero_star || h.level < row.hero_level || h.transcended < row.hero_transcend {
                    Some("AllHeroNotOwned"@)
                } else {
                    None
                },
            },
        }
    }
}

proof fn lemma_claim_error_sticks(row: GrowthRow, found: Seq<Option<HeroLevels>>, k: int)
    requires
        0 <= k <= found.len(),
        growth_claim_error(row, found.take(k)) is Some,
    ensures
        growth_claim_error(row, found) == growth_claim_error(row, found.take(k)),
    decreases found.len() - k,
{
    if k < found.len() {
        assert(found.take(k + 1).drop_last() =~= found.take(k));
        lemma_claim_error_sticks(row, found, k + 1);
    } else {
        assert(found.take(k) =~= found);
    }
}

/// Checks a growth item's other reward: `found` holds, for each hero the item lists, the
/// player's hero when owned.
pub fn growth_claim(row: &GrowthRow, found: &Vec<Option<HeroLevels>>) -> (r: Result<(), ServerError>)
    ensures
        match growth_claim_error(*row, found@) {
            Some(e) => r is Err && is_rule(r->Err_0, e),
            None => r is Ok,
        },
{
    let mut i: usize = 0;
    while i < found.len()
        invariant
            i <= found@.len(),
            growth_claim_error(*row, found@.take(i as int)) is None,
        decreases found@.len() - i,
    {
        proof {
            assert(found@.take(i + 1).drop_last() =~= found@.take(i as int));
        }
        match &found[i] {
            None => {
                proof {
                    lemma_claim_error_sticks(*row, found@, i + 1);
                }
                return Err(rule("NoHero"));
            },
            Some(h) => {
                if h.star < row.hero_star || h.level < row.hero_level || h.transcended < row.hero_transcend {
                    proof {
                        lemma_claim_error_sticks(*row, found@, i + 1);
                    }
                    return Err(rule("AllHeroNotOwned"));
                }
            },
        }
        i = i + 1;
    }
    proof {
        assert(found@.take(found@.len() as int) =~= found@);
    }
    Ok(())
}

/// Checks the hero chosen for a growth item: it must be one the item lists.
pub fn growth_choice(row: &GrowthRow, selected: i64) -> (r: Result<(), ServerError>)
    ensures
        row.hero_indices@.contains(selected) ==> r is Ok,
        !row.hero_indices@.contains(selected) ==> r is Err && is_rule(r->Err_0, "HeroNotSelectable"@),
{
    if !listed(&row.hero_indices, selected) {
        return Err(rule("HeroNotSelectable"));
    }
    Ok(())
}

/// Checks one side of a two-hero selector: exactly one hero chosen, one the side lists,
/// and not the hero chosen on the other side (else `HeroNotSelectable`).
pub fn side_choice(ids: &Vec<i64>, choices: &Vec<i64>, taken: &Vec<i64>) -> (r: Result<i64, ServerError>)
    ensures
        ids@.len() == 1 && choices@.contains(ids@[0]) && !taken@.contains(ids@[0])
            ==> r == Ok::<i64, ServerError>(ids@[0]),
        !(ids@.len() == 1 && choices@.contains(ids@[0]) && !taken@.contains(ids@[0]))
            ==> r is Err && is_rule(r->Err_0, "HeroNotSelectable"@),
{
    if ids.len() != 1 || !listed(choices, ids[0]) || listed(taken, ids[0]) {
        return Err(rule("HeroNotSelectable"));
    }
    Ok(ids[0])
}

/// The stage and level a recruited hero starts at: the given star, or the hero's starting
/// star when none is given, and a level of at least 1.
pub fn recruit_stage(start_star: i64, star: i64, level: i64) -> (r: (i64, i64))
    ensures
        r.0 == (if star > 0 { star } else { start_star }),
        r.1 == (if level >= 1 { level } else { 1 }),
{
    (if star > 0 { star } else { start_star }, if level >= 1 { level } else { 1 })
}

} // verus!
