//! NPC friendship: which NPCs take gifts, the friendship points that gifts give, and the
//! step rewards that the points unlock.
use vstd::prelude::*;
use crate::error::{rule, is_rule, ServerError};

verus! {

/// One friendship step of an NPC: the points it needs, whether points stop at the steps
/// so far, the item codes it takes as gifts (any when empty), how often its end reward
/// repeats, and its reward.
pub struct NpcStep {
    pub step: i64,
    pub req_point: i64,
    pub limit: bool,
    pub restriction: Vec<i64>,
    pub end_repeat: i64,
    pub reward: i64,
}

/// A player's friendship with an NPC.
#[derive(Clone, Copy, PartialEq, Eq, Structural)]
pub struct NpcFriendship {
    pub hero: i64,
    pub step: i64,
    pub point: i64,
    pub end_count: i64,
}

/// A gift item: the NPCs it suits, its event points, its code and the friendship points
/// it gives.
pub struct NpcGift {
    pub heroes: Vec<i64>,
    pub event_point: i64,
    pub code: i64,
    pub point: i64,
}

/// True for the NPCs whose friendship this service keeps (the seasonal ones have their
/// own event service).
pub open spec fn npc_served(id: int) -> bool {
    90 <= id <= 99 || id == 111 || id == 805
}

/// Checks the NPC of a request: it must have friendship steps and be served
/// (`NPCNotFound` otherwise).
pub fn npc_check(id: i64, steps: &Vec<NpcStep>) -> (r: Result<(), ServerError>)
    ensures
        steps@.len() == 0 || !npc_served(id as int) ==> r is Err && is_rule(r->Err_0, "NPCNotFound"@),
        steps@.len() > 0 && npc_served(id as int) ==> r is Ok,
{
    if steps.len() == 0 || !((90 <= id && id <= 99) || id == 111 || id == 805) {
        return Err(rule("NPCNotFound"));
    }
    Ok(())
}

/// The friendship to start from: the saved one, or step 1 with nothing earned.
pub fn npc_friendship(id: i64, saved: Option<NpcFriendship>) -> (r: NpcFriendship)
    ensures
        r == match saved {
            Some(f) => f,
            None => NpcFriendship { hero: id, step: 1, point: 0, end_count: 0 },
        },
{
    match saved {
        Some(f) => f,
        None => NpcFriendship { hero: id, step: 1, point: 0, end_count: 0 },
    }
}

/// The first step row numbered `step`, among the first `n`.
pub open spec fn step_row(steps: Seq<NpcStep>, step: i64, n: int) -> Option<int>
    decreases n,
{
    if n <= 0 {
        None
    } else {
        match step_row(steps, step, n - 1) {
            Some(i) => Some(i),
            None => if steps[n - 1].step == step { Some(n - 1) } else { None },
        }
    }
}

proof fn lemma_step_row_range(steps: Seq<NpcStep>, step: i64, n: int)
    ensures
        step_row(steps, step, n) matches Some(i) ==> 0 <= i < n && steps[i].step == step,
    decreases n,
{
    if n > 0 {
        lemma_step_row_range(steps, step, n - 1);
    }
}

/// Finds the row of the friendship's step, refused with `MaxFriendlyPoint` when the
/// NPC has no such step.
pub fn npc_step(steps: &Vec<NpcStep>, step: i64) -> (r: Result<usize, ServerError>)
    ensures
        match step_row(steps@, step, steps@.len() as int) {
            Some(i) => r is Ok && r->Ok_0 == i,
            None => r is Err && is_rule(r->Err_0, "MaxFriendlyPoint"@),
        },
        r is Ok ==> r->Ok_0 < steps@.len() && steps@[r->Ok_0 as int].step == step,
{
    let mut i: usize = 0;
    while i < steps.len()
        invariant
            i <= steps@.len(),
            step_row(steps@, step, i as int) is None,
        decreases steps@.len() - i,
    {
        if steps[i].step == step {
            proof {
                assert(step_row(steps@, step, i + 1) == Some(i as int));
                lemma_row_keeps(steps@, step, i + 1, steps@.len() as int);
            }
            return Ok(i);
        }
        i = i + 1;
    }
    Err(rule("MaxFriendlyPoint"))
}

proof fn lemma_row_keeps(steps: Seq<NpcStep>, step: i64, m: int, n: int)
    requires
        0 <= m <= n,
        step_row(steps, step, m) is Some,
    ensures
        step_row(steps, step, n) == step_row(steps, step, m),
    decreases n - m,
{
    if n > m {
        lemma_row_keeps(steps, step, m, n - 1);
    }
}

/// The points needed to finish step `step`: the points of every step up to it, among the
/// first `n` rows.
pub open spec fn needed_points(steps: Seq<NpcStep>, step: i64, n: int) -> int
    decreases n,
{
    if n <= 0 {
        0
    } else {
        needed_points(steps, step, n - 1) + if steps[n - 1].step <= step { steps[n - 1].req_point as int } else { 0 }
    }
}

proof fn lemma_needed_bounded(steps: Seq<NpcStep>, step: i64, n: int)
    requires
        0 <= n <= steps.len(),
    ensures
        -n * 0x8000_0000_0000_0000 <= needed_points(steps, step, n) <= n * 0x8000_0000_0000_0000,
    decreases n,
{
    if n > 0 {
        lemma_needed_bounded(steps, step, n - 1);
    }
}

/// Adds up the points needed to finish step `step`; see `needed_points`.
pub fn npc_needed(steps: &Vec<NpcStep>, step: i64) -> (r: i128)
    requires
        steps@.len() <= 0x1_0000_0000,
    ensures
        r == needed_points(steps@, step, steps@.len() as int),
{
    let mut total: i128 = 0;
    let mut i: usize = 0;
    while i < steps.len()
        invariant
            i <= steps@.len(),
            steps@.len() <= 0x1_0000_0000,
            total == needed_points(steps@, step, i as int),
        decreases steps@.len() - i,
    {
        proof {
            lemma_needed_bounded(steps@, step, i as int);
            assert(-0x1_0000_0000 * 0x8000_0000_0000_0000 <= -(i as int) * 0x8000_0000_0000_0000) by (nonlinear_arith)
                requires 0 <= i <= 0x1_0000_0000;
            assert((i as int) * 0x8000_0000_0000_0000 <= 0x1_0000_0000 * 0x8000_0000_0000_0000) by (nonlinear_arith)
                requires 0 <= i <= 0x1_0000_0000;
        }
        if steps[i].step <= step {
            total = total + steps[i].req_point as i128;
        }
        i = i + 1;
    }
    total
}

fn holds(v: &Vec<i64>, x: i64) -> (r: bool)
    ensures
        r == v@.contains(x),
{
    let mut i: usize = 0;
    while i < v.len()
        invariant
            i <= v@.len(),
            forall|k: int| 0 <= k < i ==> v@[k] != x,
        decreases v@.len() - i,
    {
        if v[i] == x {
            proof {
                assert(v@[i as int] == x);
            }
            return true;
        }
        i = i + 1;
    }
    false
}

/// Why a gift is refused for NPC `id` at a step that takes the codes `restriction`: no
/// gift data (`ItemDataNotFound`), a gift that does not suit the NPC or that gives event
/// points (`InvalidItem`), or a code the step does not take (`InvalidItem`).
pub open spec fn gift_refusal(g: Option<NpcGift>, id: i64, restriction: Seq<i64>) -> Option<Seq<char>> {
    match g {
        None => Some("ItemDataNotFound"@),
        Some(g) => if !g.heroes@.contains(id) || g.event_point != 0 {
            Some("InvalidItem"@)
        } else if restriction.len() > 0 && !restriction.contains(g.code) {
            Some("InvalidItem"@)
        } else {
            None
        },
    }
}

/// The refusal of the first refused gift among the first `n`.
pub open spec fn gifts_refusal(gifts: Seq<Option<NpcGift>>, id: i64, restriction: Seq<i64>, n: int) -> Option<Seq<char>>
    decreases n,
{
    if n <= 0 {
        None
    } else {
        match gifts_refusal(gifts, id, restriction, n - 1) {
            Some(e) => Some(e),
            None => gift_refusal(gifts[n - 1], id, restriction),
        }
    }
}

/// The points the first `n` gifts give, each gift's points times its count.
pub open spec fn gift_points(gifts: Seq<Option<NpcGift>>, counts: Seq<i64>, n: int) -> int
    decreases n,
{
    if n <= 0 {
        0
    } else {
        gift_points(gifts, counts, n - 1) + match gifts[n - 1] {
            Some(g) => g.point * counts[n - 1],
            None => 0,
        }
    }
}

/// True when the counts of a gift request are acceptable: as many as the items, at least
/// one, each in `1..=100000`.
pub open spec fn gift_counts_ok(items: Seq<i64>, counts: Seq<i64>) -> bool {
    items.len() > 0 && items.len() == counts.len() && forall|i: int| 0 <= i < counts.len() ==> 1 <= #[trigger] counts[i] <= 100000
}

proof fn lemma_gift_points_bounded(gifts: Seq<Option<NpcGift>>, counts: Seq<i64>, n: int)
    requires
        0 <= n <= gifts.len(),
        n <= counts.len(),
        forall|i: int| 0 <= i < counts.len() ==> 1 <= #[trigger] counts[i] <= 100000,
    ensures
        -n * 0x1_0000_0000_0000_0000_0000 <= gift_points(gifts, counts, n) <= n * 0x1_0000_0000_0000_0000_0000,
    decreases n,
{
    if n > 0 {
        lemma_gift_points_bounded(gifts, counts, n - 1);
        if gifts[n - 1] is Some {
            let p = gifts[n - 1]->0.point;
            let c = counts[n - 1];
            assert(-0x1_0000_0000_0000_0000_0000 <= p * c <= 0x1_0000_0000_0000_0000_0000) by (nonlinear_arith)
                requires i64::MIN <= p <= i64::MAX, 1 <= c <= 100000;
        }
    }
}

proof fn lemma_gifts_refusal_keeps(gifts: Seq<Option<NpcGift>>, id: i64, restriction: Seq<i64>, m: int, n: int)
    requires
        0 <= m <= n,
        gifts_refusal(gifts, id, restriction, m) is Some,
    ensures
        gifts_refusal(gifts, id, restriction, n) == gifts_refusal(gifts, id, restriction, m),
    decreases n - m,
{
    if n > m {
        lemma_gifts_refusal_keeps(gifts, id, restriction, m, n - 1);
    }
}

/// The friendship after gifts worth `points`, when the points stay within `i32` and, at a
/// limited step, within what the steps so far need: refused with `InvalidItemCount` past
/// `i32::MAX` and with `MaxFriendlyPoint` past the limit.
pub open spec fn gifted(f: NpcFriendship, points: int, limit: bool, needed: int) -> Result<NpcFriendship, Seq<char>> {
    let new = f.point + points;
    if new > i32::MAX || new < i64::MIN {
        Err("InvalidItemCount"@)
    } else if limit && new > needed {
        Err("MaxFriendlyPoint"@)
    } else {
        Ok(NpcFriendship { point: new as i64, ..f })
    }
}

/// Gives gifts to an NPC at its current step `row`. `items` and `counts` are the request's
/// lists and `gifts` the gift data of each item. The counts must be acceptable
/// (`InvalidItemCount`); the first refused gift is refused as `gift_refusal` says; the
/// friendship then takes the points as `gifted` says. Gives the friendship and the points.
pub fn npc_gift(f: NpcFriendship, row: &NpcStep, needed: i128, items: &Vec<i64>, counts: &Vec<i64>, gifts: &Vec<Option<NpcGift>>)
    -> (r: Result<(NpcFriendship, i128), ServerError>)
    requires
        gifts@.len() == items@.len(),
        items@.len() <= 100,
    ensures
        !gift_counts_ok(items@, counts@) ==> r is Err && is_rule(r->Err_0, "InvalidItemCount"@),
        gift_counts_ok(items@, counts@) ==> match gifts_refusal(gifts@, f.hero, row.restriction@, gifts@.len() as int) {
            Some(e) => r is Err && is_rule(r->Err_0, e),
            None => {
                let points = gift_points(gifts@, counts@, gifts@.len() as int);
                match gifted(f, points, row.limit, needed as int) {
                    Ok(g) => r == Ok::<(NpcFriendship, i128), ServerError>((g, points as i128)),
                    Err(e) => r is Err && is_rule(r->Err_0, e),
                }
            },
        },
{
    if items.len() == 0 || items.len() != counts.len() {
        return Err(rule("InvalidItemCount"));
    }
    let mut k: usize = 0;
    while k < counts.len()
        invariant
            k <= counts@.len(),
            forall|i: int| 0 <= i < k ==> 1 <= #[trigger] counts@[i] <= 100000,
        decreases counts@.len() - k,
    {
        if counts[k] < 1 || counts[k] > 100000 {
            proof {
                assert(!(1 <= counts@[k as int] <= 100000));
            }
            return Err(rule("InvalidItemCount"));
        }
        k = k + 1;
    }
    let mut points: i128 = 0;
    let mut i: usize = 0;
    while i < gifts.len()
        invariant
            gifts@.len() == items@.len(),
            items@.len() == counts@.len(),
            items@.len() <= 100,
            gift_counts_ok(items@, counts@),
            i <= gifts@.len(),
            gifts_refusal(gifts@, f.hero, row.restriction@, i as int) is None,
            points == gift_points(gifts@, counts@, i as int),
        decreases gifts@.len() - i,
    {
        let g = match &gifts[i] {
            None => {
                proof {
                    lemma_gifts_refusal_keeps(gifts@, f.hero, row.restriction@, i + 1, gifts@.len() as int);
                }
                return Err(rule("ItemDataNotFound"));
            },
            Some(g) => g,
        };
        if !holds(&g.heroes, f.hero) || g.event_point != 0 {
            proof {
                lemma_gifts_refusal_keeps(gifts@, f.hero, row.restriction@, i + 1, gifts@.len() as int);
            }
            return Err(rule("InvalidItem"));
        }
        if row.restriction.len() > 0 && !holds(&row.restriction, g.code) {
            proof {
                lemma_gifts_refusal_keeps(gifts@, f.hero, row.restriction@, i + 1, gifts@.len() as int);
            }
            return Err(rule("InvalidItem"));
        }
        proof {
            lemma_gift_points_bounded(gifts@, counts@, i as int);
            let c = counts@[i as int];
            assert(-0x1_0000_0000_0000_0000_0000 <= g.point * c <= 0x1_0000_0000_0000_0000_0000) by (nonlinear_arith)
                requires i64::MIN <= g.point <= i64::MAX, 1 <= c <= 100000;
        }
        points = points + (g.point as i128) * (counts[i] as i128);
        i = i + 1;
    }
    proof {
        lemma_gift_points_bounded(gifts@, counts@, gifts@.len() as int);
    }
    let new = f.point as i128 + points;
    if new > i32::MAX as i128 || new < i64::MIN as i128 {
        return Err(rule("InvalidItemCount"));
    }
    if row.limit && new > needed {
        return Err(rule("MaxFriendlyPoint"));
    }
    Ok((NpcFriendship { point: new as i64, ..f }, points))
}

/// The highest step among the rows.
pub open spec fn top_step(steps: Seq<NpcStep>, n: int) -> int
    decreases n,
{
    if n <= 0 {
        i64::MIN as int
    } else {
        let t = top_step(steps, n - 1);
        if steps[n - 1].step > t { steps[n - 1].step as int } else { t }
    }
}

/// The friendship after the reward of its step `row` is claimed: the next step while
/// steps remain; at the last step, another round of the end reward while it repeats (the
/// step's points spent), else past the last step.
pub open spec fn claimed(f: NpcFriendship, row: NpcStep, top: int) -> NpcFriendship {
    if f.step < top {
        NpcFriendship { step: (f.step + 1) as i64, ..f }
    } else if row.end_repeat > f.end_count {
        NpcFriendship { end_count: (f.end_count + 1) as i64, point: (f.point - row.req_point) as i64, ..f }
    } else {
        NpcFriendship { step: (f.step + 1) as i64, ..f }
    }
}

/// Claims the reward of the friendship's step `row`: the request must name the current
/// step and the friendship must have the points needed (`NotEnoughFriendlyPoint`). Gives
/// the friendship after `claimed`.
pub fn npc_claim(f: NpcFriendship, asked_step: i64, needed: i128, steps: &Vec<NpcStep>, row: usize) -> (r: Result<NpcFriendship, ServerError>)
    requires
        row < steps@.len(),
        f.step < i64::MAX,
        i64::MIN <= f.point - steps@[row as int].req_point <= i64::MAX,
    ensures
        asked_step != f.step || (f.point as int) < needed ==> r is Err && is_rule(r->Err_0, "NotEnoughFriendlyPoint"@),
        asked_step == f.step && (f.point as int) >= needed ==>
            r == Ok::<NpcFriendship, ServerError>(claimed(f, steps@[row as int], top_step(steps@, steps@.len() as int))),
{
    if asked_step != f.step || (f.point as i128) < needed {
        return Err(rule("NotEnoughFriendlyPoint"));
    }
    let mut top: i64 = i64::MIN;
    let mut i: usize = 0;
    while i < steps.len()
        invariant
            i <= steps@.len(),
            top == top_step(steps@, i as int),
        decreases steps@.len() - i,
    {
        if steps[i].step > top {
            top = steps[i].step;
        }
        i = i + 1;
    }
    let r = &steps[row];
    if f.step < top {
        Ok(NpcFriendship { step: f.step + 1, ..f })
    } else if r.end_repeat > f.end_count {
        Ok(NpcFriendship { end_count: f.end_count + 1, point: f.point - r.req_point, ..f })
    } else {
        Ok(NpcFriendship { step: f.step + 1, ..f })
    }
}

/// A step reward below the last step is claimed once: the claim moves the friendship to
/// the next step, so the same claim is refused afterwards.
pub proof fn lemma_claim_moves_on(f: NpcFriendship, row: NpcStep, top: int)
    requires
        f.step < top,
        f.step < i64::MAX,
    ensures
        claimed(f, row, top).step == f.step + 1,
        claimed(f, row, top).step != f.step,
        claimed(f, row, top).point == f.point,
{
}

} // verus!
