//! Pets: the layout, feeding and caring, incubators and eggs, tier upgrades and
//! explorations, as checks on the pet records and the time.
use vstd::prelude::*;
use crate::error::{rule, is_rule, ServerError};
use crate::forms::Request;
use crate::lists::json_int_array;
use crate::text::{int_text, push_int, bounded_decimal, split_on, parse_i64, chars_of};
use vstd::string::StrSliceExecFns;

verus! {

/// The list a layout names and where it first goes wrong: the JSON list of pets
/// (`PetIndices`, `InvalidValue` when it is not one), at most `max` of them
/// (`InvalidValue`), and the first entry that is negative or repeats a pet (none when
/// every entry is good). An entry 0 leaves a place empty.
pub open spec fn first_bad(pets: Seq<i64>, k: int) -> Option<int>
    decreases pets.len() - k,
{
    if k < 0 || k >= pets.len() {
        None
    } else if pets[k] < 0 || (pets[k] > 0 && exists|j: int| 0 <= j < k && pets[j] == pets[k]) {
        Some(k)
    } else {
        first_bad(pets, k + 1)
    }
}

/// Reads a pet layout; see `first_bad`. Gives the pets and the position of the first bad
/// entry, which the caller refuses once it reaches it (the pets before it are checked
/// first).
pub fn layout_pets(req: &Request, max: i64) -> (r: Result<(Vec<i64>, Option<usize>), ServerError>)
    ensures
        match json_int_array(req.text_of("PetIndices"@)) {
            None => r is Err && is_rule(r->Err_0, "InvalidValue"@),
            Some(v) => if v.len() > (max as usize) as int {
                r is Err && is_rule(r->Err_0, "InvalidValue"@)
            } else {
                r is Ok && r->Ok_0.0@ == v && match first_bad(v, 0) {
                    None => r->Ok_0.1 is None,
                    Some(k) => r->Ok_0.1 == Some(k as usize),
                }
            },
        },
{
    let pets = crate::lists::int_array(req.text("PetIndices"), "InvalidValue")?;
    let cap = #[verifier::truncate] (max as usize);
    if pets.len() > cap {
        return Err(rule("InvalidValue"));
    }
    proof {
        assert(cap as int == (max as usize) as int);
    }
    let n = pets.len();
    let mut k: usize = 0;
    while k < n
        invariant
            n == pets@.len(),
            k <= n,
            first_bad(pets@, 0) == first_bad(pets@, k as int),
            json_int_array(req.text_of("PetIndices"@)) == Some(pets@),
            !(pets@.len() > (max as usize) as int),
        decreases n - k,
    {
        let id = pets[k];
        let mut repeated = false;
        if id > 0 {
            let mut j: usize = 0;
            while j < k
                invariant
                    j <= k < n,
                    n == pets@.len(),
                    id == pets@[k as int],
                    repeated <==> exists|a: int| 0 <= a < j && pets@[a] == id,
                decreases k - j,
            {
                if pets[j] == id {
                    repeated = true;
                }
                j = j + 1;
            }
        }
        if id < 0 || repeated {
            return Ok((pets, Some(k)));
        }
        k = k + 1;
    }
    Ok((pets, None))
}

/// The text of a list of pets as the records keep it: the numbers joined by commas.
pub open spec fn pet_text(v: Seq<i64>) -> Seq<char>
    decreases v.len(),
{
    if v.len() == 0 {
        Seq::empty()
    } else if v.len() == 1 {
        int_text(v[0] as int)
    } else {
        pet_text(v.drop_last()) + seq![','] + int_text(v.last() as int)
    }
}

/// Writes a list of pets as the records keep it.
pub fn join_pets(v: &Vec<i64>) -> (r: String)
    ensures
        r@ == pet_text(v@),
{
    let mut out = String::new();
    let mut i: usize = 0;
    while i < v.len()
        invariant
            i <= v@.len(),
            out@ == pet_text(v@.take(i as int)),
        decreases v@.len() - i,
    {
        proof {
            assert(v@.take(i + 1).drop_last() =~= v@.take(i as int));
            assert(v@.take(i + 1).last() == v@[i as int]);
            reveal_strlit(",");
        }
        if i > 0 {
            out.append(",");
        } else {
            proof {
                assert(v@.take(0) =~= Seq::<i64>::empty());
            }
        }
        push_int(&mut out, v[i]);
        proof {
            if i == 0 {
                assert(v@.take(1) =~= seq![v@[0]]);
            }
        }
        i = i + 1;
    }
    proof {
        assert(v@.take(v@.len() as int) =~= v@);
    }
    out
}

/// The pets a record's list names: the pieces between commas that read as `i64`.
pub open spec fn listed_pets(pieces: Seq<Seq<char>>) -> Seq<i64>
    decreases pieces.len(),
{
    if pieces.len() == 0 {
        Seq::empty()
    } else {
        let prev = listed_pets(pieces.drop_last());
        match bounded_decimal(pieces.last(), i64::MIN as int, i64::MAX as int) {
            Some(v) => prev.push(v as i64),
            None => prev,
        }
    }
}

/// Reads the list of pets a record keeps.
pub fn read_pets(text: &str) -> (r: Vec<i64>)
    ensures
        r@ == listed_pets(split_on(text@, ',')),
{
    let cs = chars_of(text);
    let n = cs.len();
    let mut out: Vec<i64> = Vec::new();
    let mut start: usize = 0;
    let mut i: usize = 0;
    let ghost mut done: Seq<Seq<char>> = Seq::empty();
    proof {
        assert(cs@.take(0) =~= Seq::<char>::empty());
        assert(done.push(cs@.subrange(0, 0)) =~= seq![Seq::<char>::empty()]);
    }
    while i < n
        invariant
            cs@ == text@,
            n == cs@.len(),
            start <= i <= n,
            split_on(cs@.take(i as int), ',') == done.push(cs@.subrange(start as int, i as int)),
            out@ == listed_pets(done),
        decreases n - i,
    {
        let ghost s1 = cs@.take(i + 1);
        proof {
            assert(s1.drop_last() =~= cs@.take(i as int));
            assert(s1.last() == cs@[i as int]);
        }
        if cs[i] == ',' {
            let piece = text.substring_char(start, i);
            let ghost gp = cs@.subrange(start as int, i as int);
            match parse_i64(piece) {
                Some(v) => { out.push(v); },
                None => {},
            }
            proof {
                assert(done.push(gp).drop_last() =~= done);
                done = done.push(gp);
                assert(cs@.subrange(i + 1, i + 1) =~= Seq::<char>::empty());
            }
            start = i + 1;
        } else {
            proof {
                let prev = done.push(cs@.subrange(start as int, i as int));
                assert(cs@.subrange(start as int, i as int).push(cs@[i as int])
                    =~= cs@.subrange(start as int, i + 1));
                assert(prev.update(prev.len() - 1, prev.last().push(cs@[i as int]))
                    =~= done.push(cs@.subrange(start as int, i + 1)));
            }
        }
        i = i + 1;
    }
    let piece = text.substring_char(start, n);
    let ghost gp = cs@.subrange(start as int, n as int);
    match parse_i64(piece) {
        Some(v) => { out.push(v); },
        None => {},
    }
    proof {
        assert(cs@.take(n as int) =~= text@);
        assert(done.push(gp).drop_last() =~= done);
    }
    out
}

} // verus!

verus! {

/// Feeds a pet holding `full` food points (of `max_food`) with `count` foods of `value`
/// points each: refused (`InvalidValue`) when the pet is full or `count` is more than it
/// takes to fill it; else the new food points, never past `max_food`.
pub fn feed(full: i64, max_food: i64, value: i64, count: i64) -> (r: Result<i64, ServerError>)
    requires
        value > 0,
        0 <= count,
        full < max_food ==> max_food - full + value <= i64::MAX,
        full < max_food && count <= crate::live::trunc_div(max_food - full + value - 1, value as int)
            ==> full + count * value <= i64::MAX,
    ensures
        if full >= max_food || count > crate::live::trunc_div(max_food - full + value - 1, value as int) {
            r is Err && is_rule(r->Err_0, "InvalidValue"@)
        } else {
            r == Ok::<i64, ServerError>(if full + count * value < max_food { (full + count * value) as i64 } else { max_food })
        },
{
    if full >= max_food {
        return Err(rule("InvalidValue"));
    }
    let room = max_food - full + value - 1;
    let most = room / value;
    proof {
        assert(most == crate::live::trunc_div(room as int, value as int));
    }
    if count > most {
        return Err(rule("InvalidValue"));
    }
    proof {
        assert(count * value <= room) by (nonlinear_arith)
            requires 0 <= count <= most, 0 < value, most == room / value, room >= 0;
        assert(count * value >= 0) by (nonlinear_arith)
            requires 0 <= count, 0 < value;
    }
    let fed = full + count * value;
    Ok(if fed < max_food { fed } else { max_food })
}

/// Refuses the happiness gift of a pet below its maximum happiness, or asked for before
/// the sleep after the last gift ends (`NotYet`).
pub fn gift_check(happiness: i64, max_happiness: i64, last_gift: i64, sleep: i64, now: i64) -> (r: Result<(), ServerError>)
    requires
        i64::MIN <= last_gift + sleep <= i64::MAX,
    ensures
        r is Ok <==> !(happiness < max_happiness || last_gift + sleep > now),
        r is Err ==> is_rule(r->Err_0, "NotYet"@),
{
    if happiness < max_happiness || last_gift + sleep > now {
        return Err(rule("NotYet"));
    }
    Ok(())
}

/// The care rules of a pet's grade: the cool-down and the happiness each action adds,
/// the sleep after a gift, and the happiness at which the pet is content.
pub struct CareRules {
    pub feed_cool: i64,
    pub feed_add: i64,
    pub pat_cool: i64,
    pub pat_add: i64,
    pub play_cool: i64,
    pub play_add: i64,
    pub sleep: i64,
    pub max_happiness: i64,
}

/// When a pet was last fed, patted and played with, when it last gave a gift, and its
/// happiness.
pub struct CareState {
    pub last_feed: i64,
    pub last_pat: i64,
    pub last_play: i64,
    pub last_gift: i64,
    pub happiness: i64,
}

/// The outcome of caring for a pet with action `kind` (0 feed, 1 pat, 2 play) `count`
/// times at `now`: 1 to 4 times (`InvalidValue`) of a known action (`InvalidValue`), once
/// the action's cool-down and the sleep after a gift are over and while the pet is not
/// content (`NotYet`). Gives the new happiness, never past the maximum.
pub open spec fn care_of(c: CareRules, p: CareState, kind: i64, count: i64, now: int) -> Result<int, Seq<char>> {
    if !(1 <= count <= 4) {
        Err("InvalidValue"@)
    } else if !(0 <= kind <= 2) {
        Err("InvalidValue"@)
    } else {
        let last = if kind == 0 { p.last_feed } else if kind == 1 { p.last_pat } else { p.last_play };
        let cool = if kind == 0 { c.feed_cool } else if kind == 1 { c.pat_cool } else { c.play_cool };
        let add = if kind == 0 { c.feed_add } else if kind == 1 { c.pat_add } else { c.play_add };
        if last + cool > now || p.last_gift + c.sleep > now || p.happiness >= c.max_happiness {
            Err("NotYet"@)
        } else {
            let h = p.happiness + add * count;
            Ok(if h < c.max_happiness { h } else { c.max_happiness as int })
        }
    }
}

/// Caring for a pet `count` times gains `count` times what caring once gains, capped at the
/// maximum: when caring once leaves the pet below its maximum, caring `count` times (1 to
/// 4) gives the happiness plus `count` times that gain, capped at the maximum.
pub proof fn lemma_care_scales(c: CareRules, p: CareState, kind: i64, count: i64, now: int)
    requires
        1 <= count <= 4,
        care_of(c, p, kind, 1, now) matches Ok(h1) && h1 < c.max_happiness,
    ensures
        care_of(c, p, kind, count, now) == Ok::<int, Seq<char>>({
            let h = p.happiness + count * (care_of(c, p, kind, 1, now)->Ok_0 - p.happiness);
            if h < c.max_happiness { h } else { c.max_happiness as int }
        }),
{
    let add = if kind == 0 { c.feed_add } else if kind == 1 { c.pat_add } else { c.play_add };
    assert(add * count == count * add) by (nonlinear_arith);
}

/// Caring gains the happiness of the action chosen: feeding (0) the feed points, patting
/// (1) the pat points, playing (2) the play points, each time.
pub proof fn lemma_care_gains(c: CareRules, p: CareState, kind: i64, count: i64, now: int)
    requires
        care_of(c, p, kind, count, now) is Ok,
    ensures
        ({
            let add = if kind == 0 { c.feed_add } else if kind == 1 { c.pat_add } else { c.play_add };
            let h = p.happiness + count * add;
            &&& 0 <= kind <= 2
            &&& 1 <= count <= 4
            &&& care_of(c, p, kind, count, now)->Ok_0 == (if h < c.max_happiness { h } else { c.max_happiness as int })
        }),
{
    let add = if kind == 0 { c.feed_add } else if kind == 1 { c.pat_add } else { c.play_add };
    assert(add * count == count * add) by (nonlinear_arith);
}

/// True when the care numbers are small enough for their sums.
pub open spec fn care_ok(c: CareRules, p: CareState) -> bool {
    &&& -0x1_0000_0000 <= c.feed_cool <= 0x1_0000_0000
    &&& -0x1_0000_0000 <= c.pat_cool <= 0x1_0000_0000
    &&& -0x1_0000_0000 <= c.play_cool <= 0x1_0000_0000
    &&& -0x1_0000_0000 <= c.sleep <= 0x1_0000_0000
    &&& -0x1_0000_0000 <= c.feed_add <= 0x1_0000_0000
    &&& -0x1_0000_0000 <= c.pat_add <= 0x1_0000_0000
    &&& -0x1_0000_0000 <= c.play_add <= 0x1_0000_0000
    &&& -0x1_0000_0000_0000 <= p.last_feed <= 0x1_0000_0000_0000
    &&& -0x1_0000_0000_0000 <= p.last_pat <= 0x1_0000_0000_0000
    &&& -0x1_0000_0000_0000 <= p.last_play <= 0x1_0000_0000_0000
    &&& -0x1_0000_0000_0000 <= p.last_gift <= 0x1_0000_0000_0000
    &&& -0x1_0000_0000_0000 <= p.happiness <= 0x1_0000_0000_0000
}

/// Cares for a pet; see `care_of`.
pub fn care(c: &CareRules, p: &CareState, req: &Request, now: i64) -> (r: Result<i64, ServerError>)
    requires
        care_ok(*c, *p),
    ensures
        match (crate::live::int_field_of(*req, "ActionType"@), req.number_of("ActionCount"@, 1)) {
            (Some(kind), Some(count)) => match care_of(*c, *p, kind, count, now as int) {
                Ok(h) => r is Ok && r->Ok_0 == h,
                Err(e) => r is Err && is_rule(r->Err_0, e),
            },
            (None, _) => r is Err && is_rule(r->Err_0, "InvalidValue"@),
            (Some(_), None) => r is Err && is_rule(r->Err_0, "InvalidValue"@),
        },
{
    let kind = crate::live::int_field(req, "ActionType")?;
    let count = req.number("ActionCount", 1)?;
    if count < 1 || count > 4 {
        return Err(rule("InvalidValue"));
    }
    if kind < 0 || kind > 2 {
        return Err(rule("InvalidValue"));
    }
    let last = if kind == 0 { p.last_feed } else if kind == 1 { p.last_pat } else { p.last_play };
    let cool = if kind == 0 { c.feed_cool } else if kind == 1 { c.pat_cool } else { c.play_cool };
    let add = if kind == 0 { c.feed_add } else if kind == 1 { c.pat_add } else { c.play_add };
    if last + cool > now || p.last_gift + c.sleep > now || p.happiness >= c.max_happiness {
        return Err(rule("NotYet"));
    }
    proof {
        assert(-4 * 0x1_0000_0000 <= add * count <= 4 * 0x1_0000_0000) by (nonlinear_arith)
            requires 1 <= count <= 4, -0x1_0000_0000 <= add <= 0x1_0000_0000;
    }
    let h = p.happiness + add * count;
    Ok(if h < c.max_happiness { h } else { c.max_happiness })
}

} // verus!

verus! {

/// The incubator actions.
pub enum IncubatorAction {
    Buy,
    Mount,
    SetEgg,
    UnsetEgg,
    GetRewards,
}

/// An incubator slot: the incubator mounted, the egg set (0 for none), and when the egg
/// hatches.
pub struct IncubatorSlot {
    pub mounting: i64,
    pub set_item: i64,
    pub completed: i64,
}

/// What an incubator of the table costs and how much faster (in percent) it hatches.
pub struct IncubatorData {
    pub price: i64,
    pub time_per: i64,
}

/// What an incubator action does.
pub enum IncubatorStep {
    /// Buy incubator `id` for the slot.
    Buy,
    /// Mount incubator `id` in the slot.
    Mount,
    /// Set egg item `egg` in the slot (the caller checks the egg and takes it).
    SetEgg { egg: i64 },
    /// Take egg `egg` out of the slot, hatched (`hatch`) or back into the inventory.
    TakeEgg { egg: i64, hatch: bool },
}

/// The outcome of an incubator action on the slot (none when the player lacks it) with
/// incubator `id` (its data none when unknown; `owned` when the player has it): the slot
/// must exist (`InvalidValue`) and the incubator be known (`ItemDataNotFound`). Buying
/// needs an incubator not owned yet (`AlreadyOwned`) with a price (`InvalidValue`); the
/// other actions need it owned (`ItemNotOwned`). Mounting needs an empty slot; the egg
/// actions need the incubator mounted; setting an egg needs no egg set; taking one needs
/// an egg, the one the request names if it names any (`ItemIndex`); hatching needs the
/// time to have come (`NotYet`).
pub open spec fn incubator_of(a: IncubatorAction, slot: Option<IncubatorSlot>, data: Option<IncubatorData>, owned: bool, id: i64, item: Option<i64>, now: int) -> Result<IncubatorStep, Seq<char>> {
    match slot {
        None => Err("InvalidValue"@),
        Some(s) => match data {
            None => Err("ItemDataNotFound"@),
            Some(d) => if a is Buy {
                if owned { Err("AlreadyOwned"@) } else if d.price <= 0 { Err("InvalidValue"@) } else { Ok(IncubatorStep::Buy) }
            } else if !owned {
                Err("ItemNotOwned"@)
            } else if a is Mount {
                if s.set_item != 0 { Err("InvalidValue"@) } else { Ok(IncubatorStep::Mount) }
            } else if s.mounting != id {
                Err("InvalidValue"@)
            } else if a is SetEgg {
                if s.set_item != 0 {
                    Err("InvalidValue"@)
                } else {
                    match item {
                        None => Err("InvalidValue"@),
                        Some(egg) => Ok(IncubatorStep::SetEgg { egg }),
                    }
                }
            } else {
                match item {
                    None => if s.set_item == 0 { Err("InvalidValue"@) } else { Err("InvalidValue"@) },
                    Some(named) => if s.set_item == 0 || (named > 0 && named != s.set_item) {
                        Err("InvalidValue"@)
                    } else if a is GetRewards && s.completed > now {
                        Err("NotYet"@)
                    } else {
                        Ok(IncubatorStep::TakeEgg { egg: s.set_item, hatch: a is GetRewards })
                    },
                }
            },
        },
    }
}

/// Decides an incubator action; see `incubator_of` (`ItemIndex` read as a count field).
pub fn incubator_step(a: &IncubatorAction, slot: &Option<IncubatorSlot>, data: &Option<IncubatorData>, owned: bool, id: i64, req: &Request, now: i64) -> (r: Result<IncubatorStep, ServerError>)
    ensures
        match incubator_of(*a, *slot, *data, owned, id, crate::live::int_field_of(*req, "ItemIndex"@), now as int) {
            Ok(step) => r == Ok::<IncubatorStep, ServerError>(step),
            Err(e) => r is Err && is_rule(r->Err_0, e),
        },
{
    let s = match slot {
        None => { return Err(rule("InvalidValue")); },
        Some(s) => s,
    };
    let d = match data {
        None => { return Err(rule("ItemDataNotFound")); },
        Some(d) => d,
    };
    match a {
        IncubatorAction::Buy => {
            if owned {
                return Err(rule("AlreadyOwned"));
            }
            if d.price <= 0 {
                return Err(rule("InvalidValue"));
            }
            return Ok(IncubatorStep::Buy);
        },
        _ => {},
    }
    if !owned {
        return Err(rule("ItemNotOwned"));
    }
    match a {
        IncubatorAction::Mount => {
            if s.set_item != 0 {
                return Err(rule("InvalidValue"));
            }
            return Ok(IncubatorStep::Mount);
        },
        _ => {},
    }
    if s.mounting != id {
        return Err(rule("InvalidValue"));
    }
    match a {
        IncubatorAction::SetEgg => {
            if s.set_item != 0 {
                return Err(rule("InvalidValue"));
            }
            let egg = crate::live::int_field(req, "ItemIndex")?;
            Ok(IncubatorStep::SetEgg { egg })
        },
        _ => {
            let egg = s.set_item;
            if egg == 0 {
                return Err(rule("InvalidValue"));
            }
            let named = crate::live::int_field(req, "ItemIndex")?;
            if named > 0 && named != egg {
                return Err(rule("InvalidValue"));
            }
            let hatch = match a { IncubatorAction::GetRewards => true, _ => false };
            if hatch && s.completed > now {
                return Err(rule("NotYet"));
            }
            Ok(IncubatorStep::TakeEgg { egg, hatch })
        },
    }
}

/// When an egg set at `now` hatches: after its time, shortened by the incubator's
/// percent (keeping at least 1% of it), rounded toward zero.
pub fn hatch_time(now: i64, req_time: i64, time_per: i64) -> (r: i64)
    requires
        0 <= req_time <= 0x1_0000_0000,
        -0x1_0000_0000 <= time_per <= 0x1_0000_0000,
        -0x4000_0000_0000_0000 <= now <= 0x4000_0000_0000_0000,
    ensures
        ({
            let pct = if 100 - time_per < 1 { 1int } else if 100 - time_per > 100 { 100int } else { 100 - time_per };
            r == now + req_time * pct / 100
        }),
{
    let left = 100 - time_per;
    let pct: i64 = if left < 1 { 1 } else if left > 100 { 100 } else { left };
    proof {
        assert(0 <= req_time * pct <= 100 * 0x1_0000_0000) by (nonlinear_arith)
            requires 0 <= req_time <= 0x1_0000_0000, 1 <= pct <= 100;
    }
    now + req_time * pct / 100
}

/// Refuses to awaken a pet that is not of grade 6 or already has 5 stars
/// (`CannotAwakenMore`).
pub fn awaken_check(grade: i64, star: i64) -> (r: Result<(), ServerError>)
    ensures
        r is Ok <==> !(grade != 6 || star >= 5),
        r is Err ==> is_rule(r->Err_0, "CannotAwakenMore"@),
{
    if grade != 6 || star >= 5 {
        return Err(rule("CannotAwakenMore"));
    }
    Ok(())
}

/// Refuses an egg from the supplier before its next time (`NotYet`).
pub fn supplier_check(next: i64, now: i64) -> (r: Result<(), ServerError>)
    ensures
        r is Ok <==> next <= now,
        r is Err ==> is_rule(r->Err_0, "NotYet"@),
{
    if next > now {
        return Err(rule("NotYet"));
    }
    Ok(())
}

/// The number of times `x` occurs among the first `n` entries of `s`.
pub open spec fn occurrences(s: Seq<i64>, x: i64, n: int) -> int
    decreases n,
{
    if n <= 0 { 0 } else { occurrences(s, x, n - 1) + if s[n - 1] == x { 1int } else { 0int } }
}

/// Counts each pet soul of a tier upgrade, by increasing soul.
pub fn soul_counts(souls: &Vec<i64>) -> (r: Vec<(i64, i64)>)
    requires
        souls@.len() <= 100,
    ensures
        forall|a: int, b: int| 0 <= a < b < r@.len() ==> r@[a].0 < r@[b].0,
        forall|x: i64| (exists|k: int| 0 <= k < r@.len() && r@[k].0 == x) <==> souls@.contains(x),
        forall|k: int| 0 <= k < r@.len() ==> (#[trigger] r@[k]).1 == occurrences(souls@, r@[k].0, souls@.len() as int),
{
    let mut keys: Vec<i64> = Vec::new();
    let n = souls.len();
    let mut i: usize = 0;
    while i < n
        invariant
            n == souls@.len(),
            i <= n,
            crate::soul::ascending(keys@),
            forall|x: i64| keys@.contains(x) <==> souls@.take(i as int).contains(x),
        decreases n - i,
    {
        let x = souls[i];
        let mut found = false;
        let mut p: usize = 0;
        while p < keys.len()
            invariant
                p <= keys@.len(),
                found <==> exists|q: int| 0 <= q < p && keys@[q] == x,
            decreases keys@.len() - p,
        {
            if keys[p] == x {
                found = true;
            }
            p = p + 1;
        }
        let ghost before = keys@;
        if !found {
            crate::soul::insert_sorted(&mut keys, x);
        }
        proof {
            let t0 = souls@.take(i as int);
            let t1 = souls@.take(i + 1);
            assert(t1 =~= t0.push(x));
            assert forall|y: i64| keys@.contains(y) <==> t1.contains(y) by {
                if t1.contains(y) {
                    let a = choose|a: int| 0 <= a < t1.len() && t1[a] == y;
                    if a < i {
                        assert(t0[a] == y);
                    }
                }
                if t0.contains(y) {
                    let a = choose|a: int| 0 <= a < t0.len() && t0[a] == y;
                    assert(t1[a] == y);
                }
                if y == x {
                    assert(t1[i as int] == y);
                    if found {
                        assert(before.contains(x));
                    }
                }
            }
        }
        i = i + 1;
    }
    proof {
        assert(souls@.take(n as int) =~= souls@);
    }
    let mut out: Vec<(i64, i64)> = Vec::new();
    let mut k: usize = 0;
    while k < keys.len()
        invariant
            n == souls@.len(),
            n <= 100,
            k <= keys@.len(),
            crate::soul::ascending(keys@),
            out@.len() == k,
            forall|q: int| 0 <= q < k ==> (#[trigger] out@[q]).0 == keys@[q] && out@[q].1 == occurrences(souls@, keys@[q], n as int),
        decreases keys@.len() - k,
    {
        let x = keys[k];
        let mut c: i64 = 0;
        let mut m: usize = 0;
        while m < n
            invariant
                n == souls@.len(),
                n <= 100,
                m <= n,
                c == occurrences(souls@, x, m as int),
                0 <= c <= m,
            decreases n - m,
        {
            if souls[m] == x {
                c = c + 1;
            }
            m = m + 1;
        }
        out.push((x, c));
        k = k + 1;
    }
    proof {
        assert forall|a: int, b: int| 0 <= a < b < out@.len() implies out@[a].0 < out@[b].0 by {
            assert(out@[a].0 == keys@[a] && out@[b].0 == keys@[b]);
        }
        assert forall|x: i64| (exists|q: int| 0 <= q < out@.len() && out@[q].0 == x) <==> souls@.contains(x) by {
            if exists|q: int| 0 <= q < out@.len() && out@[q].0 == x {
                let q = choose|q: int| 0 <= q < out@.len() && out@[q].0 == x;
                assert(keys@[q] == x);
                assert(keys@.contains(x));
            }
            if souls@.contains(x) {
                assert(keys@.contains(x));
                let q = choose|q: int| 0 <= q < keys@.len() && keys@[q] == x;
                assert(out@[q].0 == x);
            }
        }
    }
    out
}

/// Checks one soul of a tier upgrade: one the rules list as a pet soul, of the grade of
/// the upgrade (`InvalidValue`); `soul_grade` is none when the item table lacks it
/// (`ItemDataNotFound`).
pub fn tier_soul_check(valid: &Vec<i64>, soul: i64, soul_grade: Option<i64>, grade: i64) -> (r: Result<(), ServerError>)
    ensures
        if !valid@.contains(soul) {
            r is Err && is_rule(r->Err_0, "InvalidValue"@)
        } else {
            match soul_grade {
                None => r is Err && is_rule(r->Err_0, "ItemDataNotFound"@),
                Some(g) => if g != grade { r is Err && is_rule(r->Err_0, "InvalidValue"@) } else { r is Ok },
            }
        },
{
    let mut listed = false;
    let mut i: usize = 0;
    while i < valid.len()
        invariant
            i <= valid@.len(),
            listed <==> exists|k: int| 0 <= k < i && valid@[k] == soul,
        decreases valid@.len() - i,
    {
        if valid[i] == soul {
            listed = true;
        }
        i = i + 1;
    }
    if !listed {
        return Err(rule("InvalidValue"));
    }
    match soul_grade {
        None => Err(rule("ItemDataNotFound")),
        Some(g) => if g != grade { Err(rule("InvalidValue")) } else { Ok(()) },
    }
}

/// Sends one pet exploring: refused (`InvalidValue`) when it is the avatar (status 1) or
/// has less food than the exploration takes; else its food after.
pub fn explore_pet(status: i64, full: i64, req_food: i64) -> (r: Result<i64, ServerError>)
    requires
        i64::MIN <= full - req_food <= i64::MAX,
    ensures
        if status == 1 || full < req_food {
            r is Err && is_rule(r->Err_0, "InvalidValue"@)
        } else {
            r == Ok::<i64, ServerError>((full - req_food) as i64)
        },
{
    if status == 1 || full < req_food {
        return Err(rule("InvalidValue"));
    }
    Ok(full - req_food)
}

/// Refuses an exploration deck outside `1..=max` (`InvalidValue`).
pub fn deck_check(deck: i64, max: i64) -> (r: Result<(), ServerError>)
    ensures
        r is Ok <==> 1 <= deck <= max,
        r is Err ==> is_rule(r->Err_0, "InvalidValue"@),
{
    if deck < 1 || deck > max {
        return Err(rule("InvalidValue"));
    }
    Ok(())
}

} // verus!

verus! {

proof fn lemma_pet_text_plain(n: i64)
    ensures
        !int_text(n as int).contains(','),
        bounded_decimal(int_text(n as int), i64::MIN as int, i64::MAX as int) == Some(n as int),
{
    crate::text::lemma_int_text_reads_back(n as int);
    let s = int_text(n as int);
    if s.contains(',') {
        let k = choose|k: int| 0 <= k < s.len() && s[k] == ',';
        assert(s[k] == '-' || crate::text::is_digit(s[k]));
    }
}

/// The list of pets an exploration record keeps reads back as the same list.
pub proof fn lemma_pet_list_round_trip(v: Seq<i64>)
    ensures
        listed_pets(split_on(pet_text(v), ',')) == v,
    decreases v.len(),
{
    if v.len() == 0 {
        let ps = seq![Seq::<char>::empty()];
        assert(pet_text(v) == Seq::<char>::empty());
        assert(split_on(Seq::<char>::empty(), ',') == ps);
        assert(ps.drop_last() =~= Seq::<Seq<char>>::empty());
        assert(ps.last() == Seq::<char>::empty());
        assert(crate::text::decimal_value(Seq::<char>::empty()) is None);
        assert(listed_pets(Seq::<Seq<char>>::empty()) == Seq::<i64>::empty());
        assert(listed_pets(ps) == Seq::<i64>::empty());
        assert(v =~= Seq::<i64>::empty());
    } else if v.len() == 1 {
        let t = int_text(v[0] as int);
        lemma_pet_text_plain(v[0]);
        crate::text::lemma_split_on_plain(t, ',');
        assert(pet_text(v) == t);
        let ps = seq![t];
        assert(ps.drop_last() =~= Seq::<Seq<char>>::empty());
        assert(ps.last() == t);
        assert(listed_pets(Seq::<Seq<char>>::empty()) == Seq::<i64>::empty());
        assert(listed_pets(ps) == Seq::<i64>::empty().push(v[0]));
        assert(Seq::<i64>::empty().push(v[0]) =~= v);
    } else {
        let w = v.drop_last();
        let t = int_text(v.last() as int);
        lemma_pet_list_round_trip(w);
        lemma_pet_text_plain(v.last());
        crate::text::lemma_split_on_join(pet_text(w), t, ',');
        assert(pet_text(v) == pet_text(w) + seq![','] + t);
        let ps = split_on(pet_text(w), ',').push(t);
        assert(ps.drop_last() =~= split_on(pet_text(w), ','));
        assert(ps.last() == t);
        assert(listed_pets(ps) == w.push(v.last()));
        assert(w.push(v.last()) =~= v);
    }
}

} // verus!
