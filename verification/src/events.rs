//! Live events: the step tracks of a season and their rewards, event crafting, and
//! forging event equipment.
use vstd::prelude::*;
use crate::error::{rule, is_rule, ServerError};

verus! {

/// A row of the event step table: its track (0 daily, 1 mission, 2 group), step and
/// target score.
pub struct EventStepRow {
    pub kind: i64,
    pub step: i64,
    pub target: i64,
}

/// The highest group step whose target the first `n` rows show reached at `total`.
pub open spec fn reached_step(rows: Seq<EventStepRow>, total: i64, n: int) -> i64
    decreases n,
{
    if n <= 0 {
        0
    } else {
        let prev = reached_step(rows, total, n - 1);
        let r = rows[n - 1];
        if r.kind == 2 && r.target <= total && (r.step > prev) { r.step } else { prev }
    }
}

/// The target of the first group row of step `step` from row `k` on, or `total`.
pub open spec fn next_target(rows: Seq<EventStepRow>, step: int, total: i64, k: int) -> i64
    decreases rows.len() - k,
{
    if k < 0 || k >= rows.len() {
        total
    } else if rows[k].kind == 2 && rows[k].step == step {
        rows[k].target
    } else {
        next_target(rows, step, total, k + 1)
    }
}

/// The group track at `total` points: the step reached, the next step's target (the
/// total when there is none), and the points still missing.
pub fn group_progress(rows: &Vec<EventStepRow>, total: i64) -> (r: (i64, i64, i64))
    requires
        forall|k: int| 0 <= k < rows@.len() ==> (#[trigger] rows@[k]).step < i64::MAX,
        forall|k: int| 0 <= k < rows@.len() ==> i64::MIN <= (#[trigger] rows@[k]).target - total <= i64::MAX,
    ensures
        r.0 == reached_step(rows@, total, rows@.len() as int),
        r.1 == next_target(rows@, r.0 + 1, total, 0),
        r.2 == (if r.1 - total > 0 { r.1 - total } else { 0 }),
{
    let n = rows.len();
    let mut current: i64 = 0;
    let mut i: usize = 0;
    while i < n
        invariant
            n == rows@.len(),
            i <= n,
            current == reached_step(rows@, total, i as int),
            current >= 0 || i == 0,
        decreases n - i,
    {
        let r = &rows[i];
        if r.kind == 2 && r.target <= total && r.step > current {
            current = r.step;
        }
        i = i + 1;
    }
    proof {
        lemma_reached_step_bound(rows@, total, n as int);
    }
    let want = current + 1;
    let mut target = total;
    let mut k: usize = 0;
    let mut found = false;
    while k < n && !found
        invariant
            n == rows@.len(),
            k <= n,
            !found ==> next_target(rows@, want as int, total, 0) == next_target(rows@, want as int, total, k as int),
            found ==> next_target(rows@, want as int, total, 0) == target,
            !found ==> target == total,
            forall|j: int| 0 <= j < rows@.len() ==> i64::MIN <= (#[trigger] rows@[j]).target - total <= i64::MAX,
            i64::MIN <= target - total <= i64::MAX,
        decreases n - k,
    {
        if rows[k].kind == 2 && rows[k].step == want {
            target = rows[k].target;
            found = true;
        }
        k = k + 1;
    }
    proof {
        if !found {
            assert(k == n);
            assert(next_target(rows@, want as int, total, k as int) == total);
        }
        assert(want as int == current + 1);
    }
    let missing = if target > total { target - total } else { 0 };
    (current, target, missing)
}

proof fn lemma_reached_step_bound(rows: Seq<EventStepRow>, total: i64, n: int)
    requires
        0 <= n <= rows.len(),
        forall|k: int| 0 <= k < rows.len() ==> (#[trigger] rows[k]).step < i64::MAX,
    ensures
        0 <= reached_step(rows, total, n) < i64::MAX,
    decreases n,
{
    if n > 0 {
        lemma_reached_step_bound(rows, total, n - 1);
        assert(rows[n - 1].step < i64::MAX);
    }
}

/// Refuses a contribution of nothing or one past the daily limit (`InvalidValue`).
pub fn contribution_check(amount: i64, daily: i64, limit: i64) -> (r: Result<(), ServerError>)
    requires
        i64::MIN <= daily + amount <= i64::MAX,
    ensures
        r is Ok <==> !(amount <= 0 || daily + amount > limit),
        r is Err ==> is_rule(r->Err_0, "InvalidValue"@),
{
    if amount <= 0 || daily + amount > limit {
        return Err(rule("InvalidValue"));
    }
    Ok(())
}

/// A player's progress on the step tracks of a season.
pub struct StepState {
    pub day: i64,
    pub daily_step: i64,
    pub daily_count: i64,
    pub total_count: i64,
    pub mission_count: i64,
    pub mission_step: i64,
    pub group_total_step: i64,
}

/// The progress as seen on day `today`: the daily track starts over on a new day.
pub fn step_state_today(s: &StepState, today: i64) -> (r: StepState)
    ensures
        s.day != today ==> r == (StepState { day: today, daily_step: 0, daily_count: 0, ..*s }),
        s.day == today ==> r == *s,
{
    if s.day != today {
        StepState { day: today, daily_step: 0, daily_count: 0, total_count: s.total_count, mission_count: s.mission_count, mission_step: s.mission_step, group_total_step: s.group_total_step }
    } else {
        StepState { day: s.day, daily_step: s.daily_step, daily_count: s.daily_count, total_count: s.total_count, mission_count: s.mission_count, mission_step: s.mission_step, group_total_step: s.group_total_step }
    }
}

/// The step a reward of track `kind` is for and the score that counts for it: the daily
/// track's count, the mission count, or the group total (`group_total`); other tracks are
/// refused (`InvalidValue`).
pub fn reward_track(kind: i64, s: &StepState, group_total: i64) -> (r: Result<(i64, i64), ServerError>)
    ensures
        kind == 0 ==> r == Ok::<(i64, i64), ServerError>((s.daily_step, s.daily_count)),
        kind == 1 ==> r == Ok::<(i64, i64), ServerError>((s.mission_step, s.mission_count)),
        kind == 2 ==> r == Ok::<(i64, i64), ServerError>((s.group_total_step, group_total)),
        !(0 <= kind <= 2) ==> r is Err && is_rule(r->Err_0, "InvalidValue"@),
{
    if kind == 0 {
        Ok((s.daily_step, s.daily_count))
    } else if kind == 1 {
        Ok((s.mission_step, s.mission_count))
    } else if kind == 2 {
        Ok((s.group_total_step, group_total))
    } else {
        Err(rule("InvalidValue"))
    }
}

/// Refuses a step reward whose target the score has not reached, or a group reward for a
/// player who never contributed (`NotEnoughPoint`).
pub fn step_reward_check(kind: i64, score: i64, target: i64, total_count: i64) -> (r: Result<(), ServerError>)
    ensures
        r is Ok <==> !(score < target || (kind == 2 && total_count == 0)),
        r is Err ==> is_rule(r->Err_0, "NotEnoughPoint"@),
{
    if score < target || (kind == 2 && total_count == 0) {
        return Err(rule("NotEnoughPoint"));
    }
    Ok(())
}

/// The crafts counted so far this season: the saved count when it is of `season`, else
/// none.
pub open spec fn crafted_of(saved_season: i64, saved_count: i64, season: i64) -> i64 {
    if saved_season == season { saved_count } else { 0 }
}

/// Counts `count` more crafts after those of this season: the total must stay an `i32`
/// and within the craft's limit when it has one (`InvalidItemCount`). Gives the new total.
pub fn craft_count(saved_season: i64, saved_count: i64, season: i64, count: i64, limit: i64) -> (r: Result<i64, ServerError>)
    requires
        -0x4000_0000_0000_0000 <= saved_count <= 0x4000_0000_0000_0000,
        0 <= count <= 1000,
    ensures
        ({
            let old = crafted_of(saved_season, saved_count, season);
            if old + count > i32::MAX || (limit > 0 && old + count > limit) {
                r is Err && is_rule(r->Err_0, "InvalidItemCount"@)
            } else {
                r == Ok::<i64, ServerError>((old + count) as i64)
            }
        }),
{
    let old = if saved_season == season { saved_count } else { 0 };
    let total = old + count;
    if total > i32::MAX as i64 || (limit > 0 && total > limit) {
        return Err(rule("InvalidItemCount"));
    }
    Ok(total)
}

/// What a forge attempt does.
pub enum ForgeOutcome {
    /// The equipment reaches the level.
    Success,
    /// Nothing changes.
    Fail,
    /// The equipment breaks.
    Break,
}

/// What a forge roll in `0..1000` gives: success when the forge is fixed or the roll is
/// below the success ratio; past success plus fail ratio, a break when the row can break;
/// otherwise a failure.
pub open spec fn forge_result(fixed: bool, success: i64, fail: i64, breaks: i64, roll: int) -> ForgeOutcome {
    if fixed || roll < success {
        ForgeOutcome::Success
    } else if roll >= success + fail && breaks > 0 {
        ForgeOutcome::Break
    } else {
        ForgeOutcome::Fail
    }
}

/// True when a forge of event equipment from `level - 1` to `level` may be tried: the next
/// level only, within the row's maximum.
pub open spec fn forge_level_ok(level: i64, current: i64, max_level: i64) -> bool {
    level == current + 1 && level <= max_level
}

/// Forges event equipment from `level - 1` to `level` with the given roll: refused with
/// `InvalidValue` unless the level is the next one within the row's maximum; otherwise the
/// outcome `forge_result` gives for the roll.
pub fn forge_with(level: i64, current: i64, max_level: i64, fixed: bool, success: i64, fail: i64, breaks: i64, roll: i64)
    -> (r: Result<ForgeOutcome, ServerError>)
    requires
        current < i64::MAX,
        i64::MIN <= success + fail <= i64::MAX,
    ensures
        !forge_level_ok(level, current, max_level) ==> r is Err && is_rule(r->Err_0, "InvalidValue"@),
        forge_level_ok(level, current, max_level)
            ==> r == Ok::<ForgeOutcome, ServerError>(forge_result(fixed, success, fail, breaks, roll as int)),
{
    if level != current + 1 || level > max_level {
        return Err(rule("InvalidValue"));
    }
    if fixed || roll < success {
        Ok(ForgeOutcome::Success)
    } else if roll >= success + fail && breaks > 0 {
        Ok(ForgeOutcome::Break)
    } else {
        Ok(ForgeOutcome::Fail)
    }
}

/// Forges event equipment from `level - 1` to `level`: checks the level as `forge_with`
/// does, then draws a roll in `0..1000` and answers as `forge_with` does with it.
pub fn forge(level: i64, current: i64, max_level: i64, fixed: bool, success: i64, fail: i64, breaks: i64) -> (r: Result<ForgeOutcome, ServerError>)
    requires
        current < i64::MAX,
        i64::MIN <= success + fail <= i64::MAX,
    ensures
        !forge_level_ok(level, current, max_level) ==> r is Err && is_rule(r->Err_0, "InvalidValue"@),
        forge_level_ok(level, current, max_level) ==> exists|roll: int| 0 <= roll < 1000
            && r == Ok::<ForgeOutcome, ServerError>(#[trigger] forge_result(fixed, success, fail, breaks, roll)),
{
    if level != current + 1 || level > max_level {
        return Err(rule("InvalidValue"));
    }
    let roll = crate::dice::random_below(1000);
    let r = forge_with(level, current, max_level, fixed, success, fail, breaks, roll);
    proof {
        assert(r == Ok::<ForgeOutcome, ServerError>(forge_result(fixed, success, fail, breaks, roll as int)));
    }
    r
}

} // verus!
