//! Renewing an equipment item's option or skill: the slot, the options it may become, the
//! draw, and what the renewal costs.
use vstd::prelude::*;
use crate::error::{rule, is_rule, ServerError};
use crate::forms::Request;
use crate::dice::{pick_by_weight, random_below, random_upto};

verus! {

/// An option of the option table.
pub struct OptionRow {
    pub id: i64,
    pub option_type: i64,
    pub ratio: i64,
    pub steps: i64,
}

/// The first row of option `id`.
pub open spec fn option_row(rows: Seq<OptionRow>, id: i64) -> Option<OptionRow>
    decreases rows.len(),
{
    if rows.len() == 0 {
        None
    } else {
        match option_row(rows.drop_last(), id) {
            Some(r) => Some(r),
            None => if rows.last().id == id { Some(rows.last()) } else { None },
        }
    }
}

proof fn lemma_option_row_prefix(rows: Seq<OptionRow>, n: int, id: i64)
    requires
        0 <= n <= rows.len(),
        option_row(rows.take(n), id) is Some,
    ensures
        option_row(rows, id) == option_row(rows.take(n), id),
    decreases rows.len() - n,
{
    if n < rows.len() {
        assert(rows.take(n + 1).drop_last() =~= rows.take(n));
        lemma_option_row_prefix(rows, n + 1, id);
    } else {
        assert(rows.take(n) =~= rows);
    }
}

/// Looks up option `id`.
pub fn find_option(rows: &Vec<OptionRow>, id: i64) -> (r: Option<usize>)
    ensures
        r is Some <==> option_row(rows@, id) is Some,
        r is Some ==> r->0 < rows@.len() && option_row(rows@, id) == Some(rows@[r->0 as int]),
{
    let mut i: usize = 0;
    while i < rows.len()
        invariant
            i <= rows@.len(),
            option_row(rows@.take(i as int), id) is None,
        decreases rows@.len() - i,
    {
        proof {
            assert(rows@.take(i + 1).drop_last() =~= rows@.take(i as int));
        }
        if rows[i].id == id {
            proof {
                assert(option_row(rows@.take(i + 1), id) == Some(rows@[i as int]));
                lemma_option_row_prefix(rows@, i + 1, id);
            }
            return Some(i);
        }
        i = i + 1;
    }
    proof {
        assert(rows@.take(rows@.len() as int) =~= rows@);
    }
    None
}

/// An equipment item's option and skill state, by slot number (entry `k - 1` for slot `k`).
pub struct EquipRenewState {
    pub options: Vec<i64>,
    pub renewed_options: Vec<i64>,
    pub option_renew_counts: Vec<i64>,
    pub skills: Vec<i64>,
}

/// Entry `k - 1` of `s`, or 0.
pub open spec fn slot_value(s: Seq<i64>, k: int) -> i64 {
    if 1 <= k <= s.len() { s[k - 1] } else { 0 }
}

pub(crate) fn slot_of(s: &Vec<i64>, k: i64) -> (r: i64)
    ensures
        r == slot_value(s@, k as int),
{
    if k >= 1 && (k as u64) <= (s.len() as u64) { s[(k - 1) as usize] } else { 0 }
}

/// Reads the slot to renew: `SkillSlotIndex` 1 or 2 for a skill, `OptionSlotIndex` 1 to 4
/// for an option; other slots are refused with `InvalidOptionSlotIndex`.
pub fn renew_slot(req: &Request, skill: bool) -> (r: Result<i64, ServerError>)
    ensures
        ({
            let key = if skill { "SkillSlotIndex"@ } else { "OptionSlotIndex"@ };
            let top = if skill { 2int } else { 4int };
            match req.number_of(key, 0) {
                None => r is Err && is_rule(r->Err_0, "InvalidValue"@),
                Some(v) => if 1 <= v <= top {
                    r == Ok::<i64, ServerError>(v)
                } else {
                    r is Err && is_rule(r->Err_0, "InvalidOptionSlotIndex"@)
                },
            }
        }),
{
    let slot = req.number(if skill { "SkillSlotIndex" } else { "OptionSlotIndex" }, 0)?;
    let top: i64 = if skill { 2 } else { 4 };
    if !(1 <= slot && slot <= top) {
        return Err(rule("InvalidOptionSlotIndex"));
    }
    Ok(slot)
}

/// The option or skill a slot holds, refused with `InvalidOption` when the slot is empty.
pub fn renew_current(eq: &EquipRenewState, skill: bool, slot: i64) -> (r: Result<i64, ServerError>)
    ensures
        ({
            let v = slot_value(if skill { eq.skills@ } else { eq.options@ }, slot as int);
            if v == 0 { r is Err && is_rule(r->Err_0, "InvalidOption"@) } else { r == Ok::<i64, ServerError>(v) }
        }),
{
    let v = slot_of(if skill { &eq.skills } else { &eq.options }, slot);
    if v == 0 {
        return Err(rule("InvalidOption"));
    }
    Ok(v)
}

/// What an item's table row says of renewal.
pub struct RenewData {
    /// The options (or skills) listed directly, and those of the listed option groups.
    pub direct: Vec<i64>,
    pub grouped: Vec<i64>,
    pub enable_same: bool,
    pub enable_duplication: bool,
}

/// True when `o` is an option of type `t`.
pub open spec fn of_type(o: Option<OptionRow>, t: i64) -> bool {
    match o {
        Some(r) => r.option_type == t,
        None => false,
    }
}

/// True when an option slot other than `slot` holds an option of type `t`.
pub open spec fn occupied(eq: EquipRenewState, rows: Seq<OptionRow>, slot: int, t: i64) -> bool {
    exists|k: int| 1 <= k <= 4 && k != slot && #[trigger] of_type(option_row(rows, slot_value(eq.options@, k)), t)
}

/// True when `o` is a known option of a type no other slot holds.
pub open spec fn free_type(o: Option<OptionRow>, eq: EquipRenewState, rows: Seq<OptionRow>, slot: int) -> bool {
    match o {
        Some(r) => !occupied(eq, rows, slot, r.option_type),
        None => false,
    }
}

/// True when `x` may become the slot's new option: offered by the row, different from
/// the current one unless the row allows the same, and for an option (unless the row
/// allows duplicates) a known option of a type no other slot holds.
pub open spec fn candidate(x: i64, data: RenewData, rows: Seq<OptionRow>, eq: EquipRenewState, skill: bool, slot: int, current: i64) -> bool {
    &&& (data.direct@.contains(x) || data.grouped@.contains(x))
    &&& (data.enable_same || x != current)
    &&& (skill || data.enable_duplication || free_type(option_row(rows, x), eq, rows, slot))
}

fn contains_id(v: &Vec<i64>, x: i64) -> (r: bool)
    ensures
        r == v@.contains(x),
{
    let mut i: usize = 0;
    while i < v.len()
        invariant
            i <= v@.len(),
            forall|k: int| 0 <= k < i ==> v@[k] != x,
        decreases v@.len() - i,
    {
        if v[i] == x {
            proof {
                assert(v@[i as int] == x);
            }
            return true;
        }
        i = i + 1;
    }
    false
}

fn type_occupied(eq: &EquipRenewState, rows: &Vec<OptionRow>, slot: i64, t: i64) -> (r: bool)
    ensures
        r == occupied(*eq, rows@, slot as int, t),
{
    let mut k: i64 = 1;
    while k <= 4
        invariant
            1 <= k <= 5,
            forall|j: int| 1 <= j < k && j != slot ==> !#[trigger] of_type(option_row(rows@, slot_value(eq.options@, j)), t),
        decreases 5 - k,
    {
        if k != slot {
            let id = slot_of(&eq.options, k);
            match find_option(rows, id) {
                Some(i) => {
                    if rows[i].option_type == t {
                        proof {
                            assert(of_type(option_row(rows@, slot_value(eq.options@, k as int)), t));
                        }
                        return true;
                    }
                },
                None => {},
            }
        }
        k = k + 1;
    }
    false
}

fn is_candidate(x: i64, data: &RenewData, rows: &Vec<OptionRow>, eq: &EquipRenewState, skill: bool, slot: i64, current: i64) -> (r: bool)
    ensures
        r == candidate(x, *data, rows@, *eq, skill, slot as int, current),
{
    if !(contains_id(&data.direct, x) || contains_id(&data.grouped, x)) {
        return false;
    }
    if !(data.enable_same || x != current) {
        return false;
    }
    if skill || data.enable_duplication {
        return true;
    }
    match find_option(rows, x) {
        Some(i) => !type_occupied(eq, rows, slot, rows[i].option_type),
        None => false,
    }
}

/// The options a slot may become, each once: exactly those `candidate` accepts.
pub fn renew_candidates(data: &RenewData, rows: &Vec<OptionRow>, eq: &EquipRenewState, skill: bool, slot: i64, current: i64)
    -> (r: Vec<i64>)
    ensures
        crate::lists::distinct(r@),
        forall|x: i64| r@.contains(x) <==> candidate(x, *data, rows@, *eq, skill, slot as int, current),
{
    let mut out: Vec<i64> = Vec::new();
    let mut i: usize = 0;
    while i < data.direct.len()
        invariant
            i <= data.direct@.len(),
            crate::lists::distinct(out@),
            forall|x: i64| out@.contains(x) ==> candidate(x, *data, rows@, *eq, skill, slot as int, current),
            forall|k: int| 0 <= k < i && candidate(data.direct@[k], *data, rows@, *eq, skill, slot as int, current)
                ==> out@.contains(#[trigger] data.direct@[k]),
        decreases data.direct@.len() - i,
    {
        let x = data.direct[i];
        if is_candidate(x, data, rows, eq, skill, slot, current) && !contains_id(&out, x) {
            let ghost before = out@;
            out.push(x);
            proof {
                assert(out@ == before.push(x));
                assert forall|y: i64| out@.contains(y) implies candidate(y, *data, rows@, *eq, skill, slot as int, current) by {
                    if y != x {
                        let k = choose|k: int| 0 <= k < out@.len() && out@[k] == y;
                        assert(k < before.len());
                        assert(before[k] == y);
                        assert(before.contains(y));
                    }
                }
                assert forall|y: i64| before.contains(y) implies out@.contains(y) by {
                    let k = choose|k: int| 0 <= k < before.len() && before[k] == y;
                    assert(out@[k] == y);
                }
                assert(out@[out@.len() - 1] == x);
                assert forall|a: int, b: int| 0 <= a < b < out@.len() implies out@[a] != out@[b] by {
                    if b == out@.len() - 1 {
                        assert(before[a] == out@[a]);
                    } else {
                        assert(before[a] == out@[a] && before[b] == out@[b]);
                    }
                }
            }
        }
        i = i + 1;
    }
    let mut j: usize = 0;
    while j < data.grouped.len()
        invariant
            j <= data.grouped@.len(),
            crate::lists::distinct(out@),
            forall|x: i64| out@.contains(x) ==> candidate(x, *data, rows@, *eq, skill, slot as int, current),
            forall|k: int| 0 <= k < data.direct@.len() && candidate(data.direct@[k], *data, rows@, *eq, skill, slot as int, current)
                ==> out@.contains(#[trigger] data.direct@[k]),
            forall|k: int| 0 <= k < j && candidate(data.grouped@[k], *data, rows@, *eq, skill, slot as int, current)
                ==> out@.contains(#[trigger] data.grouped@[k]),
        decreases data.grouped@.len() - j,
    {
        let x = data.grouped[j];
        if is_candidate(x, data, rows, eq, skill, slot, current) && !contains_id(&out, x) {
            let ghost before = out@;
            out.push(x);
            proof {
                assert(out@ == before.push(x));
                assert forall|y: i64| out@.contains(y) implies candidate(y, *data, rows@, *eq, skill, slot as int, current) by {
                    if y != x {
                        let k = choose|k: int| 0 <= k < out@.len() && out@[k] == y;
                        assert(k < before.len());
                        assert(before[k] == y);
                        assert(before.contains(y));
                    }
                }
                assert forall|y: i64| before.contains(y) implies out@.contains(y) by {
                    let k = choose|k: int| 0 <= k < before.len() && before[k] == y;
                    assert(out@[k] == y);
                }
                assert(out@[out@.len() - 1] == x);
                assert forall|a: int, b: int| 0 <= a < b < out@.len() implies out@[a] != out@[b] by {
                    if b == out@.len() - 1 {
                        assert(before[a] == out@[a]);
                    } else {
                        assert(before[a] == out@[a] && before[b] == out@[b]);
                    }
                }
            }
        }
        j = j + 1;
    }
    proof {
        assert forall|x: i64| candidate(x, *data, rows@, *eq, skill, slot as int, current) implies out@.contains(x) by {
            if data.direct@.contains(x) {
                let k = choose|k: int| 0 <= k < data.direct@.len() && data.direct@[k] == x;
            } else {
                let k = choose|k: int| 0 <= k < data.grouped@.len() && data.grouped@[k] == x;
            }
        }
    }
    out
}

} // verus!

verus! {

/// The options a draw may give, in candidate order: known options with a positive ratio,
/// as `(option, ratio, steps)`.
pub open spec fn draw_pool(cands: Seq<i64>, rows: Seq<OptionRow>) -> Seq<(i64, i64, i64)>
    decreases cands.len(),
{
    if cands.len() == 0 {
        Seq::empty()
    } else {
        let prev = draw_pool(cands.drop_last(), rows);
        match option_row(rows, cands.last()) {
            Some(o) => if o.ratio > 0 { prev.push((cands.last(), o.ratio, o.steps)) } else { prev },
            None => prev,
        }
    }
}

/// The ratios of a pool.
pub open spec fn pool_ratios(pool: Seq<(i64, i64, i64)>) -> Seq<i64> {
    pool.map_values(|e: (i64, i64, i64)| e.1)
}

/// Draws a slot's new option from the candidates, each with chance proportional to its
/// ratio, and a step from 0 to its step count; refused with `InvalidOption` when no
/// candidate has a positive ratio.
pub fn pick_option(cands: &Vec<i64>, rows: &Vec<OptionRow>) -> (r: Result<(i64, i64), ServerError>)
    requires
        crate::dice::total_weight(pool_ratios(draw_pool(cands@, rows@))) <= i64::MAX,
    ensures
        draw_pool(cands@, rows@).len() == 0 ==> r is Err && is_rule(r->Err_0, "InvalidOption"@),
        draw_pool(cands@, rows@).len() > 0 ==> r is Ok && exists|i: int| 0 <= i < draw_pool(cands@, rows@).len()
            && (#[trigger] draw_pool(cands@, rows@)[i]).0 == (r->Ok_0).0
            && 0 <= (r->Ok_0).1 <= (if draw_pool(cands@, rows@)[i].2 > 0 { draw_pool(cands@, rows@)[i].2 } else { 0 }),
{
    let mut ids: Vec<i64> = Vec::new();
    let mut ratios: Vec<i64> = Vec::new();
    let mut steps: Vec<i64> = Vec::new();
    let mut total: i128 = 0;
    let ghost pool = draw_pool(cands@, rows@);
    let mut i: usize = 0;
    while i < cands.len()
        invariant
            i <= cands@.len(),
            pool == draw_pool(cands@, rows@),
            crate::dice::total_weight(pool_ratios(pool)) <= i64::MAX,
            ids@.len() == ratios@.len() && ratios@.len() == steps@.len(),
            ids@.len() == draw_pool(cands@.take(i as int), rows@).len(),
            forall|k: int| 0 <= k < ids@.len() ==> #[trigger] draw_pool(cands@.take(i as int), rows@)[k]
                == (ids@[k], ratios@[k], steps@[k]),
            ratios@ == pool_ratios(draw_pool(cands@.take(i as int), rows@)),
            total == crate::dice::total_weight(ratios@),
            0 <= total <= (i as int) * 0x8000_0000_0000_0000,
            ratios@.len() <= i,
            forall|k: int| 0 <= k < ratios@.len() ==> #[trigger] ratios@[k] > 0,
        decreases cands@.len() - i,
    {
        proof {
            assert(cands@.take(i + 1).drop_last() =~= cands@.take(i as int));
        }
        match find_option(rows, cands[i]) {
            Some(k) => {
                let o = &rows[k];
                if o.ratio > 0 {
                    proof {
                        crate::dice::lemma_total_weight_push(ratios@, o.ratio);
                    }
                    ids.push(cands[i]);
                    ratios.push(o.ratio);
                    steps.push(o.steps);
                    total = total + o.ratio as i128;
                    proof {
                        assert(pool_ratios(draw_pool(cands@.take(i + 1), rows@)) =~= ratios@);
                    }
                }
            },
            None => {},
        }
        i = i + 1;
    }
    proof {
        assert(cands@.take(cands@.len() as int) =~= cands@);
    }
    if ids.len() == 0 {
        return Err(rule("InvalidOption"));
    }
    proof {
        crate::dice::lemma_positive_total(ratios@);
    }
    let roll = random_below(total as i64);
    proof {
        crate::dice::lemma_roll_below_total_lands(ratios@, roll as int);
    }
    let k = match pick_by_weight(&ratios, roll) {
        Some(k) => k,
        None => { return Err(rule("InvalidOption")); },
    };
    let top: i64 = if steps[k] > 0 { steps[k] } else { 0 };
    let step = random_upto(top);
    proof {
        assert(draw_pool(cands@, rows@)[k as int] == (ids@[k as int], ratios@[k as int], steps@[k as int]));
    }
    Ok((ids[k], step))
}

} // verus!

verus! {

/// True when a draw among the candidates `cands` can be made: some candidate is a known
/// option with a positive ratio, and the ratios add up within `i64`.
pub open spec fn drawable(cands: Seq<i64>, rows: Seq<OptionRow>) -> bool {
    &&& draw_pool(cands, rows).len() > 0
    &&& crate::dice::total_weight(pool_ratios(draw_pool(cands, rows))) <= i64::MAX
}

/// The ratio option `x` brings to a draw: its ratio when known and positive, else 0.
pub open spec fn draw_weight(x: i64, rows: Seq<OptionRow>) -> int {
    match option_row(rows, x) {
        Some(o) => if o.ratio > 0 { o.ratio as int } else { 0 },
        None => 0,
    }
}

/// The ratios the candidates bring to a draw, added up.
pub open spec fn weight_sum(c: Seq<i64>, rows: Seq<OptionRow>) -> int
    decreases c.len(),
{
    if c.len() == 0 { 0 } else { weight_sum(c.drop_last(), rows) + draw_weight(c.last(), rows) }
}

proof fn lemma_pool_sum(c: Seq<i64>, rows: Seq<OptionRow>)
    ensures
        crate::dice::total_weight(pool_ratios(draw_pool(c, rows))) == weight_sum(c, rows),
        draw_pool(c, rows).len() > 0 <==> exists|i: int| 0 <= i < c.len() && draw_weight(#[trigger] c[i], rows) > 0,
    decreases c.len(),
{
    if c.len() > 0 {
        let d = c.drop_last();
        lemma_pool_sum(d, rows);
        let prev = draw_pool(d, rows);
        match option_row(rows, c.last()) {
            Some(o) => if o.ratio > 0 {
                let e = (c.last(), o.ratio, o.steps);
                assert(pool_ratios(prev.push(e)) =~= pool_ratios(prev).push(o.ratio));
                crate::dice::lemma_total_weight_push(pool_ratios(prev), o.ratio);
            },
            None => {},
        }
        if exists|i: int| 0 <= i < c.len() && draw_weight(#[trigger] c[i], rows) > 0 {
            let i = choose|i: int| 0 <= i < c.len() && draw_weight(#[trigger] c[i], rows) > 0;
            if i < d.len() {
                assert(d[i] == c[i]);
            }
        }
        if exists|i: int| 0 <= i < d.len() && draw_weight(#[trigger] d[i], rows) > 0 {
            let i = choose|i: int| 0 <= i < d.len() && draw_weight(#[trigger] d[i], rows) > 0;
            assert(c[i] == d[i]);
        }
    } else {
        assert(pool_ratios(draw_pool(c, rows)) =~= Seq::<i64>::empty());
    }
}

proof fn lemma_weight_sum_remove(s: Seq<i64>, k: int, rows: Seq<OptionRow>)
    requires
        0 <= k < s.len(),
    ensures
        weight_sum(s, rows) == weight_sum(s.remove(k), rows) + draw_weight(s[k], rows),
    decreases s.len(),
{
    if k == s.len() - 1 {
        assert(s.remove(k) =~= s.drop_last());
    } else {
        lemma_weight_sum_remove(s.drop_last(), k, rows);
        assert(s.remove(k).drop_last() =~= s.drop_last().remove(k));
        assert(s.remove(k).last() == s.last());
    }
}

proof fn lemma_weight_sum_same(a: Seq<i64>, b: Seq<i64>, rows: Seq<OptionRow>)
    requires
        crate::lists::distinct(a),
        crate::lists::distinct(b),
        forall|x: i64| a.contains(x) <==> b.contains(x),
    ensures
        weight_sum(a, rows) == weight_sum(b, rows),
    decreases a.len(),
{
    if a.len() == 0 {
        if b.len() > 0 {
            assert(b.contains(b[0]));
        }
    } else {
        let x = a.last();
        assert(a.contains(x));
        let k = choose|k: int| 0 <= k < b.len() && b[k] == x;
        let a2 = a.drop_last();
        let b2 = b.remove(k);
        assert forall|y: i64| a2.contains(y) <==> b2.contains(y) by {
            if a2.contains(y) {
                let i = choose|i: int| 0 <= i < a2.len() && a2[i] == y;
                assert(a[i] == y && i < a.len() - 1);
                assert(y != x);
                assert(a.contains(y));
                let j = choose|j: int| 0 <= j < b.len() && b[j] == y;
                assert(j != k);
                if j < k {
                    assert(b2[j] == y);
                } else {
                    assert(b2[j - 1] == y);
                }
            }
            if b2.contains(y) {
                let j = choose|j: int| 0 <= j < b2.len() && b2[j] == y;
                let jj = if j < k { j } else { j + 1 };
                assert(b[jj] == y && jj != k);
                assert(y != x);
                assert(b.contains(y));
                let i = choose|i: int| 0 <= i < a.len() && a[i] == y;
                assert(i != a.len() - 1);
                assert(a2[i] == y);
            }
        }
        assert forall|i: int, j: int| 0 <= i < j < b2.len() implies b2[i] != b2[j] by {
            let ii = if i < k { i } else { i + 1 };
            let jj = if j < k { j } else { j + 1 };
            assert(b2[i] == b[ii] && b2[j] == b[jj] && ii < jj);
        }
        lemma_weight_sum_same(a2, b2, rows);
        lemma_weight_sum_remove(b, k, rows);
    }
}

/// Whether a draw can be made does not depend on the order the candidates come in.
proof fn lemma_drawable_same(a: Seq<i64>, b: Seq<i64>, rows: Seq<OptionRow>)
    requires
        crate::lists::distinct(a),
        crate::lists::distinct(b),
        forall|x: i64| a.contains(x) <==> b.contains(x),
    ensures
        drawable(a, rows) == drawable(b, rows),
{
    lemma_pool_sum(a, rows);
    lemma_pool_sum(b, rows);
    lemma_weight_sum_same(a, b, rows);
    if exists|i: int| 0 <= i < a.len() && draw_weight(#[trigger] a[i], rows) > 0 {
        let i = choose|i: int| 0 <= i < a.len() && draw_weight(#[trigger] a[i], rows) > 0;
        assert(a.contains(a[i]));
        let j = choose|j: int| 0 <= j < b.len() && b[j] == a[i];
        assert(draw_weight(b[j], rows) > 0);
    }
    if exists|j: int| 0 <= j < b.len() && draw_weight(#[trigger] b[j], rows) > 0 {
        let j = choose|j: int| 0 <= j < b.len() && draw_weight(#[trigger] b[j], rows) > 0;
        assert(b.contains(b[j]));
        let i = choose|i: int| 0 <= i < a.len() && a[i] == b[j];
        assert(draw_weight(a[i], rows) > 0);
    }
}

/// Draws a slot's renewal: reads the slot, checks it holds something, and draws the new
/// option and step among the candidates. Gives `(slot, option, step)`.
pub fn renew_choice(req: &Request, skill: bool, eq: &EquipRenewState, data: &RenewData, rows: &Vec<OptionRow>)
    -> (r: Result<(i64, i64, i64), ServerError>)
    ensures
        r is Ok ==> {
            let (slot, option, step) = r->Ok_0;
            &&& 1 <= slot <= (if skill { 2int } else { 4int })
            &&& slot_value(if skill { eq.skills@ } else { eq.options@ }, slot as int) != 0
            &&& candidate(option, *data, rows@, *eq, skill, slot as int,
                    slot_value(if skill { eq.skills@ } else { eq.options@ }, slot as int))
            &&& option_row(rows@, option) is Some && option_row(rows@, option)->0.ratio > 0
            &&& 0 <= step <= (if option_row(rows@, option)->0.steps > 0 { option_row(rows@, option)->0.steps } else { 0 })
        },
        ({
            let key = if skill { "SkillSlotIndex"@ } else { "OptionSlotIndex"@ };
            let top = if skill { 2int } else { 4int };
            match req.number_of(key, 0) {
                None => r is Err && is_rule(r->Err_0, "InvalidValue"@),
                Some(v) => if !(1 <= v <= top) {
                    r is Err && is_rule(r->Err_0, "InvalidOptionSlotIndex"@)
                } else if slot_value(if skill { eq.skills@ } else { eq.options@ }, v as int) == 0 {
                    r is Err && is_rule(r->Err_0, "InvalidOption"@)
                } else {
                    &&& (r is Err ==> is_rule(r->Err_0, "InvalidOption"@))
                    &&& forall|c: Seq<i64>| #![trigger drawable(c, rows@)]
                        crate::lists::distinct(c)
                        && (forall|x: i64| c.contains(x) <==> candidate(x, *data, rows@, *eq, skill, v as int,
                            slot_value(if skill { eq.skills@ } else { eq.options@ }, v as int)))
                        ==> (r is Ok <==> drawable(c, rows@))
                },
            }
        }),
{
    let slot = renew_slot(req, skill)?;
    let current = renew_current(eq, skill, slot)?;
    let cands = renew_candidates(data, rows, eq, skill, slot, current);
    proof {
        lemma_pool_members(cands@, rows@);
    }
    let ghost key = if skill { "SkillSlotIndex"@ } else { "OptionSlotIndex"@ };
    let r = if !pool_fits(&cands, rows) {
        Err(rule("InvalidOption"))
    } else {
        match pick_option(&cands, rows) {
            Ok((option, step)) => {
                proof {
                    let pool = draw_pool(cands@, rows@);
                    let i = choose|i: int| 0 <= i < pool.len() && (#[trigger] pool[i]).0 == option
                        && 0 <= step <= (if pool[i].2 > 0 { pool[i].2 } else { 0 });
                    assert(cands@.contains(option) && option_row(rows@, option) is Some && option_row(rows@, option)->0.ratio > 0);
                }
                Ok((slot, option, step))
            },
            Err(e) => Err(e),
        }
    };
    proof {
        assert(req.number_of(key, 0) == Some(slot));
        assert(r is Ok <==> drawable(cands@, rows@));
        assert forall|c: Seq<i64>|
            crate::lists::distinct(c)
            && (forall|x: i64| c.contains(x) <==> candidate(x, *data, rows@, *eq, skill, slot as int, current))
            implies (r is Ok <==> #[trigger] drawable(c, rows@)) by {
            lemma_drawable_same(c, cands@, rows@);
        }
    }
    r
}

proof fn lemma_pool_members(cands: Seq<i64>, rows: Seq<OptionRow>)
    ensures
        forall|i: int| 0 <= i < draw_pool(cands, rows).len() ==> {
            let e = #[trigger] draw_pool(cands, rows)[i];
            &&& cands.contains(e.0)
            &&& option_row(rows, e.0) == Some(OptionRow { id: option_row(rows, e.0)->0.id, option_type: option_row(rows, e.0)->0.option_type, ratio: e.1, steps: e.2 })
            &&& e.1 > 0
        },
    decreases cands.len(),
{
    if cands.len() > 0 {
        let c = cands.drop_last();
        lemma_pool_members(c, rows);
        let pool = draw_pool(cands, rows);
        let prev = draw_pool(c, rows);
        assert forall|i: int| 0 <= i < pool.len() implies {
            let e = #[trigger] pool[i];
            &&& cands.contains(e.0)
            &&& option_row(rows, e.0) == Some(OptionRow { id: option_row(rows, e.0)->0.id, option_type: option_row(rows, e.0)->0.option_type, ratio: e.1, steps: e.2 })
            &&& e.1 > 0
        } by {
            if i < prev.len() {
                assert(pool[i] == prev[i]);
                let e = prev[i];
                assert(c.contains(e.0));
                let k = choose|k: int| 0 <= k < c.len() && c[k] == e.0;
                assert(cands[k] == e.0);
            } else {
                assert(cands[cands.len() - 1] == cands.last());
            }
        }
    }
}

/// Whether the ratios of the draw pool add up within `i64`.
fn pool_fits(cands: &Vec<i64>, rows: &Vec<OptionRow>) -> (r: bool)
    ensures
        r == (crate::dice::total_weight(pool_ratios(draw_pool(cands@, rows@))) <= i64::MAX),
{
    let mut total: i128 = 0;
    let mut ratios: Vec<i64> = Vec::new();
    let mut i: usize = 0;
    while i < cands.len()
        invariant
            i <= cands@.len(),
            ratios@ == pool_ratios(draw_pool(cands@.take(i as int), rows@)),
            total == crate::dice::total_weight(ratios@),
            0 <= total <= (i as int) * 0x8000_0000_0000_0000,
            forall|k: int| 0 <= k < ratios@.len() ==> #[trigger] ratios@[k] > 0,
        decreases cands@.len() - i,
    {
        proof {
            assert(cands@.take(i + 1).drop_last() =~= cands@.take(i as int));
        }
        match find_option(rows, cands[i]) {
            Some(k) => {
                if rows[k].ratio > 0 {
                    proof {
                        crate::dice::lemma_total_weight_push(ratios@, rows@[k as int].ratio);
                    }
                    ratios.push(rows[k].ratio);
                    total = total + rows[k].ratio as i128;
                    proof {
                        assert(pool_ratios(draw_pool(cands@.take(i + 1), rows@)) =~= ratios@);
                    }
                }
            },
            None => {},
        }
        i = i + 1;
    }
    proof {
        assert(cands@.take(cands@.len() as int) =~= cands@);
    }
    total <= i64::MAX as i128
}

/// What renewing an option costs, beyond its materials.
pub enum RenewCharge {
    /// A renewal coupon, this item.
    Coupon(i64),
    /// A price in a currency.
    Currency(&'static str, i64),
}

/// True when a charge is a price `p` in currency `n`.
pub open spec fn charges(c: RenewCharge, n: Seq<char>, p: i64) -> bool {
    match c {
        RenewCharge::Currency(k, q) => k@ == n && q == p,
        _ => false,
    }
}

/// What an item's detail row says of option renewal's cost.
pub struct RenewDetail {
    pub renewable_option_count: i64,
    pub renew_ticket_item_index: i64,
    pub renew_prices: Vec<i64>,
    pub renew_currency_type: i64,
}

/// How many option slots were renewed before.
pub open spec fn renewed_count(eq: EquipRenewState) -> int {
    (if slot_value(eq.renewed_options@, 1) != 0 { 1int } else { 0int })
        + (if slot_value(eq.renewed_options@, 2) != 0 { 1int } else { 0int })
        + (if slot_value(eq.renewed_options@, 3) != 0 { 1int } else { 0int })
        + (if slot_value(eq.renewed_options@, 4) != 0 { 1int } else { 0int })
}

/// The price of the next renewal of a slot renewed `count` times: the price at that count,
/// the last price beyond the list.
pub open spec fn renew_price(prices: Seq<i64>, count: int) -> i64 {
    if 0 <= count < prices.len() - 1 { prices[count] } else { prices[prices.len() - 1] }
}

/// Decides what renewing option slot `slot` costs. A new slot may be renewed only while
/// fewer slots than the row allows were renewed (`InvalidOption`). A coupon
/// (`CouponItemIndex`) must be the row's ticket (`InvalidMaterial`); without one, the
/// price follows the slot's renewal count, in the row's currency (`InvalidOption` when the
/// row lists no price, `InvalidCurrencyType` for an unknown currency).
pub fn renew_charge(req: &Request, eq: &EquipRenewState, slot: i64, detail: &RenewDetail) -> (r: Result<RenewCharge, ServerError>)
    ensures
        renewed_count(*eq) >= detail.renewable_option_count && slot_value(eq.renewed_options@, slot as int) == 0
            ==> r is Err && is_rule(r->Err_0, "InvalidOption"@),
        !(renewed_count(*eq) >= detail.renewable_option_count && slot_value(eq.renewed_options@, slot as int) == 0)
            ==> match req.number_of("CouponItemIndex"@, 0) {
                None => r is Err && is_rule(r->Err_0, "InvalidValue"@),
                Some(c) => if c > 0 {
                    if c != detail.renew_ticket_item_index {
                        r is Err && is_rule(r->Err_0, "InvalidMaterial"@)
                    } else {
                        r == Ok::<RenewCharge, ServerError>(RenewCharge::Coupon(c))
                    }
                } else if detail.renew_prices@.len() == 0 {
                    r is Err && is_rule(r->Err_0, "InvalidOption"@)
                } else {
                    match crate::extensions::currency_code(detail.renew_currency_type as int) {
                        None => r is Err && is_rule(r->Err_0, "InvalidCurrencyType"@),
                        Some(n) => r is Ok && charges(r->Ok_0, n, renew_price(detail.renew_prices@, slot_value(eq.option_renew_counts@, slot as int) as int)),
                    }
                },
            },
{
    let mut used: i64 = 0;
    let mut k: i64 = 1;
    while k <= 4
        invariant
            1 <= k <= 5,
            used == (if k > 1 && slot_value(eq.renewed_options@, 1) != 0 { 1int } else { 0int })
                + (if k > 2 && slot_value(eq.renewed_options@, 2) != 0 { 1int } else { 0int })
                + (if k > 3 && slot_value(eq.renewed_options@, 3) != 0 { 1int } else { 0int })
                + (if k > 4 && slot_value(eq.renewed_options@, 4) != 0 { 1int } else { 0int }),
        decreases 5 - k,
    {
        if slot_of(&eq.renewed_options, k) != 0 {
            used = used + 1;
        }
        k = k + 1;
    }
    if used >= detail.renewable_option_count && slot_of(&eq.renewed_options, slot) == 0 {
        return Err(rule("InvalidOption"));
    }
    let coupon = req.number("CouponItemIndex", 0)?;
    if coupon > 0 {
        if coupon != detail.renew_ticket_item_index {
            return Err(rule("InvalidMaterial"));
        }
        return Ok(RenewCharge::Coupon(coupon));
    }
    let n = detail.renew_prices.len();
    if n == 0 {
        return Err(rule("InvalidOption"));
    }
    let count = slot_of(&eq.option_renew_counts, slot);
    let at: usize = if count >= 0 && (count as u64) < ((n - 1) as u64) { count as usize } else { n - 1 };
    let price = detail.renew_prices[at];
    let kind = crate::extensions::currency_type(detail.renew_currency_type)?;
    Ok(RenewCharge::Currency(kind, price))
}

/// The materials a renewal takes: those of the list with a positive count.
pub fn renew_materials(items: &Vec<(i64, i64)>) -> (r: Vec<(i64, i64)>)
    ensures
        r@ == crate::growth::asked_materials(items@),
{
    let mut out: Vec<(i64, i64)> = Vec::new();
    let mut k: usize = 0;
    while k < items.len()
        invariant
            k <= items@.len(),
            out@ == crate::growth::asked_materials(items@.take(k as int)),
        decreases items@.len() - k,
    {
        proof {
            assert(items@.take(k + 1).drop_last() =~= items@.take(k as int));
        }
        if items[k].1 > 0 {
            out.push(items[k]);
        }
        k = k + 1;
    }
    proof {
        assert(items@.take(items@.len() as int) =~= items@);
    }
    out
}

} // verus!
