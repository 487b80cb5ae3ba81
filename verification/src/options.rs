//! Rolling the options of a new equipment item: the pool of options the item may carry,
//! and one pick per option slot.
use vstd::prelude::*;
use crate::error::{rule, is_rule, ServerError};
use crate::renewal::{OptionRow, option_row, find_option};
use crate::live::{keyed, find_keyed};
use crate::soul::{ascending, insert_sorted};

verus! {

/// What the equipment table says of an item's options.
pub struct EquipOptionData {
    pub option_count: i64,
    /// The integer entries of `OptionIndex`.
    pub option_ids: Vec<i64>,
    /// The entries of `OptionGroupIndex` (0 for an entry that is not an integer).
    pub option_groups: Vec<i64>,
    /// `EnableDuplicationOption`: several options of one type may be picked.
    pub duplicates: bool,
    pub min_rune: i64,
    pub max_rune: i64,
}

/// True when the option group keyed `g` (taken as `i32`) lists option `x`.
pub open spec fn group_has(groups: Seq<(i64, Vec<i64>)>, g: i64, x: i64) -> bool {
    match keyed(groups, (g as i32) as i64) {
        Some(j) => groups[j].1@.contains(x),
        None => false,
    }
}

/// True when the item names option `x`, directly (as `i32`) or through one of its groups.
pub open spec fn candidate(eq: EquipOptionData, groups: Seq<(i64, Vec<i64>)>, x: i64) -> bool {
    ||| exists|k: int| 0 <= k < eq.option_ids@.len() && (eq.option_ids@[k] as i32) as i64 == x
    ||| exists|k: int| 0 <= k < eq.option_groups@.len() && group_has(groups, eq.option_groups@[k], x)
}

/// True when option `x` is in the option table with a positive ratio.
pub open spec fn usable(rows: Seq<OptionRow>, x: i64) -> bool {
    match option_row(rows, x) {
        Some(o) => o.ratio > 0,
        None => false,
    }
}

/// True when option `x` belongs to the item's pool.
pub open spec fn in_pool(eq: EquipOptionData, groups: Seq<(i64, Vec<i64>)>, rows: Seq<OptionRow>, x: i64) -> bool {
    candidate(eq, groups, x) && usable(rows, x)
}

fn holds(v: &Vec<i64>, x: i64) -> (r: bool)
    ensures
        r == v@.contains(x),
{
    let mut i: usize = 0;
    while i < v.len()
        invariant
            i <= v@.len(),
            forall|k: int| 0 <= k < i ==> v@[k] != x,
        decreases v@.len() - i,
    {
        if v[i] == x {
            return true;
        }
        i = i + 1;
    }
    false
}

fn add_usable(pool: &mut Vec<i64>, rows: &Vec<OptionRow>, x: i64)
    requires
        ascending(old(pool)@),
    ensures
        ascending(final(pool)@),
        forall|y: i64| final(pool)@.contains(y) <==> (old(pool)@.contains(y) || (y == x && usable(rows@, x))),
{
    match find_option(rows, x) {
        None => {},
        Some(p) => {
            if rows[p].ratio > 0 && !holds(pool, x) {
                insert_sorted(pool, x);
            }
        },
    }
}

/// The options an item may be given, each once, in increasing order: those it names
/// directly or through its option groups that the option table holds with a positive
/// ratio.
pub fn option_pool(eq: &EquipOptionData, groups: &Vec<(i64, Vec<i64>)>, rows: &Vec<OptionRow>) -> (r: Vec<i64>)
    ensures
        ascending(r@),
        forall|x: i64| r@.contains(x) <==> in_pool(*eq, groups@, rows@, x),
{
    let mut pool: Vec<i64> = Vec::new();
    let mut k: usize = 0;
    while k < eq.option_ids.len()
        invariant
            k <= eq.option_ids@.len(),
            ascending(pool@),
            forall|x: i64| pool@.contains(x) <==>
                ((exists|j: int| 0 <= j < k && (eq.option_ids@[j] as i32) as i64 == x) && usable(rows@, x)),
        decreases eq.option_ids@.len() - k,
    {
        let x = (eq.option_ids[k] as i32) as i64;
        add_usable(&mut pool, rows, x);
        proof {
            assert forall|y: i64| pool@.contains(y) <==>
                ((exists|j: int| 0 <= j < k + 1 && (eq.option_ids@[j] as i32) as i64 == y) && usable(rows@, y)) by {
                if y == x && usable(rows@, y) {
                    assert((eq.option_ids@[k as int] as i32) as i64 == y);
                }
                if exists|j: int| 0 <= j < k + 1 && (eq.option_ids@[j] as i32) as i64 == y {
                    let j = choose|j: int| 0 <= j < k + 1 && (eq.option_ids@[j] as i32) as i64 == y;
                    if j < k {
                        assert(exists|j2: int| 0 <= j2 < k && (eq.option_ids@[j2] as i32) as i64 == y);
                    }
                }
            }
        }
        k = k + 1;
    }
    let mut g: usize = 0;
    while g < eq.option_groups.len()
        invariant
            k == eq.option_ids@.len(),
            g <= eq.option_groups@.len(),
            ascending(pool@),
            forall|x: i64| pool@.contains(x) <==>
                (((exists|j: int| 0 <= j < k && (eq.option_ids@[j] as i32) as i64 == x)
                  || (exists|j: int| 0 <= j < g && group_has(groups@, eq.option_groups@[j], x)))
                 && usable(rows@, x)),
        decreases eq.option_groups@.len() - g,
    {
        let key = (eq.option_groups[g] as i32) as i64;
        match find_keyed(groups, key) {
            None => {
                proof {
                    assert forall|y: i64| pool@.contains(y) <==>
                        (((exists|j: int| 0 <= j < k && (eq.option_ids@[j] as i32) as i64 == y)
                          || (exists|j: int| 0 <= j < g + 1 && group_has(groups@, eq.option_groups@[j], y)))
                         && usable(rows@, y)) by {
                        if exists|j: int| 0 <= j < g + 1 && group_has(groups@, eq.option_groups@[j], y) {
                            let j = choose|j: int| 0 <= j < g + 1 && group_has(groups@, eq.option_groups@[j], y);
                            if j < g {
                                assert(exists|j2: int| 0 <= j2 < g && group_has(groups@, eq.option_groups@[j2], y));
                            }
                        }
                    }
                }
            },
            Some(gi) => {
                let members = &groups[gi].1;
                let mut m: usize = 0;
                while m < members.len()
                    invariant
                        k == eq.option_ids@.len(),
                        g < eq.option_groups@.len(),
                        gi < groups@.len(),
                        *members == groups@[gi as int].1,
                        m <= members@.len(),
                        ascending(pool@),
                        forall|x: i64| pool@.contains(x) <==>
                            (((exists|j: int| 0 <= j < k && (eq.option_ids@[j] as i32) as i64 == x)
                              || (exists|j: int| 0 <= j < g && group_has(groups@, eq.option_groups@[j], x))
                              || members@.take(m as int).contains(x))
                             && usable(rows@, x)),
                    decreases members@.len() - m,
                {
                    let x = members[m];
                    add_usable(&mut pool, rows, x);
                    proof {
                        let t0 = members@.take(m as int);
                        let t1 = members@.take(m + 1);
                        assert(t1 =~= t0.push(x));
                        assert forall|y: i64| t1.contains(y) <==> (t0.contains(y) || y == x) by {
                            if t1.contains(y) {
                                let i = choose|i: int| 0 <= i < t1.len() && t1[i] == y;
                                if i < m {
                                    assert(t0[i] == y);
                                }
                            }
                            if t0.contains(y) {
                                let i = choose|i: int| 0 <= i < t0.len() && t0[i] == y;
                                assert(t1[i] == y);
                            }
                            if y == x {
                                assert(t1[m as int] == y);
                            }
                        }
                    }
                    m = m + 1;
                }
                proof {
                    assert(members@.take(members@.len() as int) =~= members@);
                    assert forall|y: i64| pool@.contains(y) <==>
                        (((exists|j: int| 0 <= j < k && (eq.option_ids@[j] as i32) as i64 == y)
                          || (exists|j: int| 0 <= j < g + 1 && group_has(groups@, eq.option_groups@[j], y)))
                         && usable(rows@, y)) by {
                        assert(group_has(groups@, eq.option_groups@[g as int], y) == members@.contains(y));
                        if exists|j: int| 0 <= j < g + 1 && group_has(groups@, eq.option_groups@[j], y) {
                            let j = choose|j: int| 0 <= j < g + 1 && group_has(groups@, eq.option_groups@[j], y);
                            if j < g {
                                assert(exists|j2: int| 0 <= j2 < g && group_has(groups@, eq.option_groups@[j2], y));
                            }
                        }
                        if members@.contains(y) {
                            assert(group_has(groups@, eq.option_groups@[g as int], y));
                        }
                    }
                }
            },
        }
        g = g + 1;
    }
    pool
}

} // verus!

verus! {

/// The positive part of `x`.
pub open spec fn pos(x: i64) -> int {
    if x > 0 { x as int } else { 0 }
}

/// The sum of the positive entries of `w`.
pub open spec fn pos_total(w: Seq<i64>) -> int
    decreases w.len(),
{
    if w.len() == 0 { 0 } else { pos_total(w.drop_last()) + pos(w.last()) }
}

/// The sum of the positive entries of `w` at positions `idx`.
pub open spec fn sum_at(w: Seq<i64>, idx: Seq<int>) -> int
    decreases idx.len(),
{
    if idx.len() == 0 { 0 } else { sum_at(w, idx.drop_last()) + pos(w[idx.last()]) }
}

/// The ratios of the option table.
pub open spec fn ratios(rows: Seq<OptionRow>) -> Seq<i64> {
    rows.map_values(|o: OptionRow| o.ratio)
}

proof fn lemma_pos_total_nonneg(w: Seq<i64>)
    ensures
        pos_total(w) >= 0,
    decreases w.len(),
{
    if w.len() > 0 {
        lemma_pos_total_nonneg(w.drop_last());
    }
}

proof fn lemma_pos_total_update(w: Seq<i64>, j: int, v: i64)
    requires
        0 <= j < w.len(),
    ensures
        pos_total(w.update(j, v)) == pos_total(w) - pos(w[j]) + pos(v),
    decreases w.len(),
{
    if j == w.len() - 1 {
        assert(w.update(j, v).drop_last() =~= w.drop_last());
    } else {
        assert(w.update(j, v).drop_last() =~= w.drop_last().update(j, v));
        lemma_pos_total_update(w.drop_last(), j, v);
    }
}

proof fn lemma_sum_at_same(w1: Seq<i64>, w2: Seq<i64>, idx: Seq<int>)
    requires
        forall|k: int| 0 <= k < idx.len() ==> w1[#[trigger] idx[k]] == w2[idx[k]],
    ensures
        sum_at(w1, idx) == sum_at(w2, idx),
    decreases idx.len(),
{
    if idx.len() > 0 {
        let front = idx.drop_last();
        assert forall|k: int| 0 <= k < front.len() implies w1[#[trigger] front[k]] == w2[front[k]] by {
            assert(front[k] == idx[k]);
        }
        lemma_sum_at_same(w1, w2, front);
        assert(w1[idx[idx.len() - 1]] == w2[idx[idx.len() - 1]]);
    }
}

/// Positions that are pairwise different pick out at most the whole positive total.
pub proof fn lemma_sum_at_bounded(w: Seq<i64>, idx: Seq<int>)
    requires
        forall|k: int| 0 <= k < idx.len() ==> 0 <= #[trigger] idx[k] < w.len(),
        forall|a: int, b: int| 0 <= a < b < idx.len() ==> idx[a] != idx[b],
    ensures
        sum_at(w, idx) <= pos_total(w),
    decreases idx.len(),
{
    if idx.len() == 0 {
        lemma_pos_total_nonneg(w);
    } else {
        let j = idx.last();
        let w2 = w.update(j, 0i64);
        let front = idx.drop_last();
        assert forall|k: int| 0 <= k < front.len() implies w[#[trigger] front[k]] == w2[front[k]] by {
            assert(front[k] == idx[k]);
            assert(idx[k] != idx[idx.len() - 1]);
        }
        lemma_sum_at_same(w, w2, front);
        assert forall|k: int| 0 <= k < front.len() implies 0 <= #[trigger] front[k] < w2.len() by {
            assert(front[k] == idx[k]);
        }
        assert forall|a: int, b: int| 0 <= a < b < front.len() implies front[a] != front[b] by {
            assert(front[a] == idx[a] && front[b] == idx[b]);
        }
        lemma_sum_at_bounded(w2, front);
        lemma_pos_total_update(w, j, 0i64);
    }
}

/// The type of option `x` (0 when the table lacks it).
pub open spec fn type_of(rows: Seq<OptionRow>, x: i64) -> i64 {
    match option_row(rows, x) {
        Some(o) => o.option_type,
        None => 0,
    }
}

/// The number of steps of option `x`, never below 0.
pub open spec fn steps_of(rows: Seq<OptionRow>, x: i64) -> i64 {
    match option_row(rows, x) {
        Some(o) => if o.steps > 0 { o.steps } else { 0 },
        None => 0,
    }
}

/// True when an option of type `t` was picked already.
pub open spec fn seen_type(rows: Seq<OptionRow>, picked: Seq<(i32, i32)>, t: i64) -> bool {
    exists|j: int| 0 <= j < picked.len() && type_of(rows, picked[j].0 as i64) == t
}

/// True when the player chose an option of type `t` for some slot.
pub open spec fn reserved_type(rows: Seq<OptionRow>, chosen: Seq<i32>, t: i64) -> bool {
    exists|j: int| 0 <= j < chosen.len() && chosen[j] > 0 && type_of(rows, chosen[j] as i64) == t
}

/// The option the player chose for slot `s` (0 for none).
pub open spec fn chosen_at(chosen: Seq<i32>, s: int) -> i32 {
    if 0 <= s < chosen.len() { chosen[s] } else { 0 }
}

/// True when option `x` may fill the next slot after `picked`: any option when duplicates
/// are enabled; otherwise one whose type was not picked yet and, for a slot the player
/// left open, whose type the player did not choose for another slot.
pub open spec fn open_for(dup: bool, rows: Seq<OptionRow>, chosen: Seq<i32>, picked: Seq<(i32, i32)>, x: i64) -> bool {
    let t = type_of(rows, x);
    ||| dup
    ||| !seen_type(rows, picked, t) && (chosen_at(chosen, picked.len() as int) != 0 || !reserved_type(rows, chosen, t))
}

/// True when `v` may fill the next slot after `picked`: an option of the pool open for
/// the slot; the player's choice at full steps when the player chose one, otherwise any
/// such option at 0 to its number of steps.
pub open spec fn fits_slot(eq: EquipOptionData, groups: Seq<(i64, Vec<i64>)>, rows: Seq<OptionRow>, chosen: Seq<i32>, picked: Seq<(i32, i32)>, v: (i32, i32)) -> bool {
    let c = chosen_at(chosen, picked.len() as int);
    &&& in_pool(eq, groups, rows, v.0 as i64)
    &&& open_for(eq.duplicates, rows, chosen, picked, v.0 as i64)
    &&& if c != 0 {
        v.0 == c && v.1 == steps_of(rows, c as i64)
    } else {
        0 <= v.1 <= steps_of(rows, v.0 as i64)
    }
}

/// True when each entry of `vals` fits its slot after the entries before it.
pub open spec fn picks_ok(eq: EquipOptionData, groups: Seq<(i64, Vec<i64>)>, rows: Seq<OptionRow>, chosen: Seq<i32>, vals: Seq<(i32, i32)>) -> bool {
    forall|s: int| 0 <= s < vals.len() ==> #[trigger] fits_slot(eq, groups, rows, chosen, vals.take(s), vals[s])
}

/// True when nothing may fill the next slot after `picked`: the player's choice is not
/// open for it, or, for an open slot, no option of the pool is.
pub open spec fn slot_blocked(eq: EquipOptionData, groups: Seq<(i64, Vec<i64>)>, rows: Seq<OptionRow>, chosen: Seq<i32>, picked: Seq<(i32, i32)>) -> bool {
    let c = chosen_at(chosen, picked.len() as int);
    if c != 0 {
        !(in_pool(eq, groups, rows, c as i64) && open_for(eq.duplicates, rows, chosen, picked, c as i64))
    } else {
        forall|x: i64| !(#[trigger] in_pool(eq, groups, rows, x) && open_for(eq.duplicates, rows, chosen, picked, x))
    }
}

/// The number of option slots of an item: its option count, within 0 to 4.
pub open spec fn slot_count(eq: EquipOptionData) -> int {
    if eq.option_count < 0 { 0 } else if eq.option_count > 4 { 4 } else { eq.option_count as int }
}

/// True when some option the player chose is missing from the option table.
pub open spec fn unknown_choice(rows: Seq<OptionRow>, chosen: Seq<i32>) -> bool {
    exists|j: int| 0 <= j < chosen.len() && chosen[j] > 0 && option_row(rows, chosen[j] as i64) is None
}

/// The options of a new item: one `(option, step)` per slot, 4 slots, and its rune slots.
pub struct MadeOptions {
    pub values: Vec<(i32, i32)>,
    pub rune_slot_count: i32,
}

} // verus!

verus! {

fn reserved_types(rows: &Vec<OptionRow>, chosen: &Vec<i32>) -> (r: Result<Vec<i64>, ServerError>)
    ensures
        r is Ok <==> !unknown_choice(rows@, chosen@),
        r is Err ==> is_rule(r->Err_0, "NoAvailableOption"@),
        r matches Ok(v) ==> forall|t: i64| v@.contains(t) <==> reserved_type(rows@, chosen@, t),
{
    let mut out: Vec<i64> = Vec::new();
    let mut j: usize = 0;
    while j < chosen.len()
        invariant
            j <= chosen@.len(),
            forall|a: int| 0 <= a < j && chosen@[a] > 0 ==> #[trigger] option_row(rows@, chosen@[a] as i64) is Some,
            forall|t: i64| out@.contains(t) <==>
                exists|a: int| 0 <= a < j && chosen@[a] > 0 && type_of(rows@, chosen@[a] as i64) == t,
        decreases chosen@.len() - j,
    {
        if chosen[j] > 0 {
            match find_option(rows, chosen[j] as i64) {
                None => {
                    return Err(rule("NoAvailableOption"));
                },
                Some(p) => {
                    let t = rows[p].option_type;
                    let ghost before = out@;
                    out.push(t);
                    proof {
                        assert forall|u: i64| out@.contains(u) <==>
                            exists|a: int| 0 <= a < j + 1 && chosen@[a] > 0 && type_of(rows@, chosen@[a] as i64) == u by {
                            if out@.contains(u) {
                                let i = choose|i: int| 0 <= i < out@.len() && out@[i] == u;
                                if i < before.len() {
                                    assert(before[i] == u);
                                    assert(before.contains(u));
                                    let a = choose|a: int| 0 <= a < j && chosen@[a] > 0 && type_of(rows@, chosen@[a] as i64) == u;
                                    assert(0 <= a < j + 1);
                                } else {
                                    assert(type_of(rows@, chosen@[j as int] as i64) == u);
                                }
                            }
                            if exists|a: int| 0 <= a < j + 1 && chosen@[a] > 0 && type_of(rows@, chosen@[a] as i64) == u {
                                let a = choose|a: int| 0 <= a < j + 1 && chosen@[a] > 0 && type_of(rows@, chosen@[a] as i64) == u;
                                if a < j {
                                    assert(before.contains(u));
                                    let i = choose|i: int| 0 <= i < before.len() && before[i] == u;
                                    assert(out@[i] == u);
                                } else {
                                    assert(out@[before.len() as int] == u);
                                }
                            }
                        }
                    }
                },
            }
        } else {
            proof {
                assert forall|u: i64| out@.contains(u) <==>
                    exists|a: int| 0 <= a < j + 1 && chosen@[a] > 0 && type_of(rows@, chosen@[a] as i64) == u by {
                    if exists|a: int| 0 <= a < j + 1 && chosen@[a] > 0 && type_of(rows@, chosen@[a] as i64) == u {
                        let a = choose|a: int| 0 <= a < j + 1 && chosen@[a] > 0 && type_of(rows@, chosen@[a] as i64) == u;
                        assert(a < j);
                    }
                }
            }
        }
        j = j + 1;
    }
    Ok(out)
}

/// The options of the pool open for the next slot, their ratios, and the ratios' total.
fn open_options(
    dup: bool,
    pool: &Vec<i64>,
    rows: &Vec<OptionRow>,
    seen: &Vec<i64>,
    reserved: &Vec<i64>,
    c: i32,
    Ghost(chosen): Ghost<Seq<i32>>,
    Ghost(picked): Ghost<Seq<(i32, i32)>>,
) -> (r: (Vec<i64>, Vec<i64>, i64))
    requires
        ascending(pool@),
        forall|x: i64| pool@.contains(x) ==> usable(rows@, x),
        pos_total(ratios(rows@)) <= i64::MAX,
        c == chosen_at(chosen, picked.len() as int),
        forall|t: i64| seen@.contains(t) <==> seen_type(rows@, picked, t),
        forall|t: i64| reserved@.contains(t) <==> reserved_type(rows@, chosen, t),
    ensures
        ascending(r.0@),
        forall|x: i64| #[trigger] r.0@.contains(x) <==> (pool@.contains(x) && open_for(dup, rows@, chosen, picked, x)),
        r.1@.len() == r.0@.len(),
        forall|k: int| 0 <= k < r.1@.len() ==> #[trigger] r.1@[k] > 0,
        r.2 == crate::dice::total_weight(r.1@),
{
    let mut avail: Vec<i64> = Vec::new();
    let mut weights: Vec<i64> = Vec::new();
    let mut total: i64 = 0;
    let ghost mut idx: Seq<int> = Seq::empty();
    let mut i: usize = 0;
    while i < pool.len()
        invariant
            i <= pool@.len(),
            ascending(pool@),
            forall|x: i64| pool@.contains(x) ==> usable(rows@, x),
            pos_total(ratios(rows@)) <= i64::MAX,
            c == chosen_at(chosen, picked.len() as int),
            forall|t: i64| seen@.contains(t) <==> seen_type(rows@, picked, t),
            forall|t: i64| reserved@.contains(t) <==> reserved_type(rows@, chosen, t),
            ascending(avail@),
            forall|k: int, j: int| 0 <= k < avail@.len() && i <= j < pool@.len() ==> avail@[k] < pool@[j],
            forall|x: i64| avail@.contains(x) <==> (pool@.take(i as int).contains(x) && open_for(dup, rows@, chosen, picked, x)),
            weights@.len() == avail@.len(),
            idx.len() == avail@.len(),
            forall|k: int| 0 <= k < idx.len() ==> 0 <= #[trigger] idx[k] < rows@.len()
                && rows@[idx[k]].id == avail@[k] && weights@[k] == rows@[idx[k]].ratio && weights@[k] > 0,
            total == crate::dice::total_weight(weights@),
            total == sum_at(ratios(rows@), idx),
        decreases pool@.len() - i,
    {
        let x = pool[i];
        proof {
            assert(pool@.contains(x));
            let t0 = pool@.take(i as int);
            let t1 = pool@.take(i + 1);
            assert(t1 =~= t0.push(x));
        }
        let p = match find_option(rows, x) {
            Some(p) => p,
            None => {
                proof {
                    assert(usable(rows@, x));
                }
                return (avail, weights, total);
            },
        };
        let t = rows[p].option_type;
        let open = dup || (!holds(seen, t) && (c != 0 || !holds(reserved, t)));
        proof {
            assert(option_row(rows@, x) == Some(rows@[p as int]));
            assert(type_of(rows@, x) == t);
            assert(open == open_for(dup, rows@, chosen, picked, x));
        }
        let ghost before_avail = avail@;
        let ghost before_weights = weights@;
        let ghost before_idx = idx;
        if open {
            let w = rows[p].ratio;
            proof {
                lemma_find_option_id(rows@, x);
                assert(rows@[p as int].id == x);
                assert(usable(rows@, x));
                assert(w > 0);
                let nidx = idx.push(p as int);
                assert(nidx.drop_last() =~= idx);
                assert(ratios(rows@)[p as int] == w);
                assert(sum_at(ratios(rows@), nidx) == total + w);
                assert forall|k: int| 0 <= k < nidx.len() implies 0 <= #[trigger] nidx[k] < ratios(rows@).len() by {
                    if k < idx.len() {
                        assert(nidx[k] == idx[k]);
                    }
                }
                assert forall|a: int, b: int| 0 <= a < b < nidx.len() implies nidx[a] != nidx[b] by {
                    assert(rows@[idx[a]].id == avail@[a]);
                    if b < idx.len() {
                        assert(nidx[a] == idx[a] && nidx[b] == idx[b]);
                        assert(rows@[idx[b]].id == avail@[b]);
                        assert(avail@[a] < avail@[b]);
                    } else {
                        assert(nidx[a] == idx[a]);
                        assert(nidx[b] == p);
                        assert(avail@[a] < pool@[i as int]);
                    }
                }
                lemma_sum_at_bounded(ratios(rows@), nidx);
                crate::dice::lemma_total_weight_push(weights@, w);
                idx = nidx;
            }
            avail.push(x);
            weights.push(w);
            total = total + w;
        }
        proof {
            let t0 = pool@.take(i as int);
            let t1 = pool@.take(i + 1);
            assert forall|y: i64| t1.contains(y) <==> (t0.contains(y) || y == x) by {
                if t1.contains(y) {
                    let a = choose|a: int| 0 <= a < t1.len() && t1[a] == y;
                    if a < i {
                        assert(t0[a] == y);
                    }
                }
                if t0.contains(y) {
                    let a = choose|a: int| 0 <= a < t0.len() && t0[a] == y;
                    assert(t1[a] == y);
                }
                if y == x {
                    assert(t1[i as int] == y);
                }
            }
            assert forall|y: i64| #![trigger avail@.contains(y)] #![trigger t1.contains(y)]
                avail@.contains(y) <==> (t1.contains(y) && open_for(dup, rows@, chosen, picked, y)) by {
                if avail@.contains(y) {
                    let a = choose|a: int| 0 <= a < avail@.len() && avail@[a] == y;
                    if a < before_avail.len() {
                        assert(before_avail[a] == y);
                        assert(before_avail.contains(y));
                        assert(t0.contains(y) && open_for(dup, rows@, chosen, picked, y));
                    } else {
                        assert(open);
                        assert(y == x);
                    }
                    assert(t1.contains(y));
                }
                if t0.contains(y) && open_for(dup, rows@, chosen, picked, y) {
                    assert(before_avail.contains(y));
                    let a = choose|a: int| 0 <= a < before_avail.len() && before_avail[a] == y;
                    assert(avail@[a] == y);
                }
                if y == x && open {
                    assert(avail@[avail@.len() - 1] == y);
                }
                if y == x && !open {
                    if avail@.contains(y) {
                        let a = choose|a: int| 0 <= a < avail@.len() && avail@[a] == y;
                        assert(avail@[a] < pool@[i as int]);
                    }
                }
            }
            assert forall|k: int, j: int| 0 <= k < avail@.len() && i + 1 <= j < pool@.len() implies avail@[k] < pool@[j] by {
                if k < before_avail.len() {
                    assert(avail@[k] == before_avail[k]);
                } else {
                    assert(pool@[i as int] < pool@[j]);
                }
            }
            assert forall|a: int, b: int| 0 <= a < b < avail@.len() implies avail@[a] < avail@[b] by {
                if b < before_avail.len() {
                    assert(avail@[a] == before_avail[a] && avail@[b] == before_avail[b]);
                } else {
                    assert(avail@[a] == before_avail[a]);
                }
            }
            assert forall|k: int| 0 <= k < idx.len() implies 0 <= #[trigger] idx[k] < rows@.len()
                && rows@[idx[k]].id == avail@[k] && weights@[k] == rows@[idx[k]].ratio && weights@[k] > 0 by {
                if k < before_idx.len() {
                    assert(idx[k] == before_idx[k] && avail@[k] == before_avail[k] && weights@[k] == before_weights[k]);
                } else {
                    lemma_find_option_id(rows@, x);
                }
            }
        }
        let ghost t1 = pool@.take(i + 1);
        i = i + 1;
        proof {
            assert(pool@.take(i as int) == t1);
        }
    }
    proof {
        assert(pool@.take(pool@.len() as int) =~= pool@);
        assert forall|k: int| 0 <= k < weights@.len() implies #[trigger] weights@[k] > 0 by {
            assert(0 <= idx[k] < rows@.len());
        }
    }
    (avail, weights, total)
}

proof fn lemma_find_option_id(rows: Seq<OptionRow>, x: i64)
    ensures
        option_row(rows, x) matches Some(o) ==> o.id == x,
    decreases rows.len(),
{
    if rows.len() > 0 {
        lemma_find_option_id(rows.drop_last(), x);
    }
}

} // verus!

verus! {

/// True when `r` is what `make_options` may give for an item the table knows, with a
/// valid choice: 4 slots, the first `slot_count` of them each fitting its slot after the
/// ones before, the others empty, and a rune slot count drawn from `min_rune` to the
/// larger of `min_rune` and `max_rune` (taken as `i32`); or, when some slot could not be
/// filled after the picks made before it, a refusal with `NoAvailableOption`.
pub open spec fn made(eq: EquipOptionData, groups: Seq<(i64, Vec<i64>)>, rows: Seq<OptionRow>, chosen: Seq<i32>, r: Result<MadeOptions, ServerError>) -> bool {
    match r {
        Ok(m) => {
            &&& m.values@.len() == 4
            &&& picks_ok(eq, groups, rows, chosen, m.values@.take(slot_count(eq)))
            &&& forall|s: int| slot_count(eq) <= s < 4 ==> #[trigger] m.values@[s] == (0i32, 0i32)
            &&& exists|rr: i64| #[trigger] rune_roll(eq, rr) && m.rune_slot_count == rr as i32
        },
        Err(e) => {
            &&& is_rule(e, "NoAvailableOption"@)
            &&& exists|picked: Seq<(i32, i32)>| picked.len() < slot_count(eq)
                    && #[trigger] picks_ok(eq, groups, rows, chosen, picked)
                    && slot_blocked(eq, groups, rows, chosen, picked)
        },
    }
}

/// True when `rr` is a possible draw of rune slots: from `min_rune` to the larger of
/// `min_rune` and `max_rune`.
pub open spec fn rune_roll(eq: EquipOptionData, rr: i64) -> bool {
    eq.min_rune <= rr <= (if eq.max_rune > eq.min_rune { eq.max_rune } else { eq.min_rune })
}

proof fn lemma_picks_push(eq: EquipOptionData, groups: Seq<(i64, Vec<i64>)>, rows: Seq<OptionRow>, chosen: Seq<i32>, vals: Seq<(i32, i32)>, v: (i32, i32))
    requires
        picks_ok(eq, groups, rows, chosen, vals),
        fits_slot(eq, groups, rows, chosen, vals, v),
    ensures
        picks_ok(eq, groups, rows, chosen, vals.push(v)),
{
    let n = vals.push(v);
    assert forall|s: int| 0 <= s < n.len() implies #[trigger] fits_slot(eq, groups, rows, chosen, n.take(s), n[s]) by {
        if s < vals.len() {
            assert(n.take(s) =~= vals.take(s));
            assert(n[s] == vals[s]);
            assert(fits_slot(eq, groups, rows, chosen, vals.take(s), vals[s]));
        } else {
            assert(n.take(s) =~= vals);
        }
    }
}

proof fn lemma_in_pool_i32(eq: EquipOptionData, groups: Seq<(i64, Vec<i64>)>, rows: Seq<OptionRow>, x: i64)
    requires
        in_pool(eq, groups, rows, x),
        forall|j: int, m: int| 0 <= j < groups.len() && 0 <= m < groups[j].1@.len() ==> i32::MIN <= #[trigger] groups[j].1@[m] <= i32::MAX,
    ensures
        i32::MIN <= x <= i32::MAX,
{
    if !(exists|k: int| 0 <= k < eq.option_ids@.len() && (eq.option_ids@[k] as i32) as i64 == x) {
        let k = choose|k: int| 0 <= k < eq.option_groups@.len() && group_has(groups, eq.option_groups@[k], x);
        let key = (eq.option_groups@[k] as i32) as i64;
        crate::live::lemma_keyed_bounds(groups, key);
        let j = keyed(groups, key)->0;
        let m = choose|m: int| 0 <= m < groups[j].1@.len() && groups[j].1@[m] == x;
        assert(i32::MIN <= groups[j].1@[m] <= i32::MAX);
    }
}

/// Rolls the options of a new item of the table row `eq` (none when the item has no
/// equipment row), honouring the options the player chose per slot (0 for a slot left
/// open). Refused with `EquipItemDataNotFound` for an unknown item, with
/// `NotCorrectOptionCount` when more options are chosen than the item has slots, and with
/// `NoAvailableOption` when a chosen option is unknown or a slot cannot be filled.
pub fn make_options(eq: &Option<EquipOptionData>, groups: &Vec<(i64, Vec<i64>)>, rows: &Vec<OptionRow>, chosen: &Vec<i32>) -> (r: Result<MadeOptions, ServerError>)
    requires
        pos_total(ratios(rows@)) <= i64::MAX,
        forall|k: int| 0 <= k < rows@.len() ==> #[trigger] rows@[k].steps <= i32::MAX,
        forall|j: int, m: int| 0 <= j < groups@.len() && 0 <= m < groups@[j].1@.len() ==> i32::MIN <= #[trigger] groups@[j].1@[m] <= i32::MAX,
    ensures
        match *eq {
            None => r is Err && is_rule(r->Err_0, "EquipItemDataNotFound"@),
            Some(e) => if chosen@.len() > slot_count(e) {
                r is Err && is_rule(r->Err_0, "NotCorrectOptionCount"@)
            } else if unknown_choice(rows@, chosen@) {
                r is Err && is_rule(r->Err_0, "NoAvailableOption"@)
            } else {
                made(e, groups@, rows@, chosen@, r)
            },
        },
{
    let e = match eq {
        None => { return Err(rule("EquipItemDataNotFound")); },
        Some(e) => e,
    };
    let count: usize = if e.option_count < 0 { 0 } else if e.option_count > 4 { 4 } else { e.option_count as usize };
    if chosen.len() > count {
        return Err(rule("NotCorrectOptionCount"));
    }
    let pool = option_pool(e, groups, rows);
    let reserved = reserved_types(rows, chosen)?;
    let mut values: Vec<(i32, i32)> = Vec::new();
    let mut seen: Vec<i64> = Vec::new();
    let mut slot: usize = 0;
    while slot < count
        invariant
            count == slot_count(*e),
            chosen@.len() <= count,
            slot <= count,
            values@.len() == slot,
            ascending(pool@),
            forall|x: i64| pool@.contains(x) <==> in_pool(*e, groups@, rows@, x),
            pos_total(ratios(rows@)) <= i64::MAX,
            forall|k: int| 0 <= k < rows@.len() ==> #[trigger] rows@[k].steps <= i32::MAX,
            forall|j: int, m: int| 0 <= j < groups@.len() && 0 <= m < groups@[j].1@.len() ==> i32::MIN <= #[trigger] groups@[j].1@[m] <= i32::MAX,
            forall|t: i64| reserved@.contains(t) <==> reserved_type(rows@, chosen@, t),
            forall|t: i64| seen@.contains(t) <==> seen_type(rows@, values@, t),
            picks_ok(*e, groups@, rows@, chosen@, values@),
            *eq == Some(*e),
            !unknown_choice(rows@, chosen@),
        decreases count - slot,
    {
        let c: i32 = if slot < chosen.len() { chosen[slot] } else { 0 };
        proof {
            assert forall|x: i64| pool@.contains(x) implies usable(rows@, x) by {
                assert(in_pool(*e, groups@, rows@, x));
            }
        }
        let (avail, weights, total) = open_options(e.duplicates, &pool, rows, &seen, &reserved, c, Ghost(chosen@), Ghost(values@));
        let id: i64;
        let step: i64;
        if c != 0 {
            if !holds(&avail, c as i64) {
                proof {
                    assert(!avail@.contains(c as i64));
                    assert(pool@.contains(c as i64) <==> in_pool(*e, groups@, rows@, c as i64));
                    assert(c == chosen_at(chosen@, values@.len() as int));
                    assert(slot_blocked(*e, groups@, rows@, chosen@, values@));
                    assert(picks_ok(*e, groups@, rows@, chosen@, values@));
                }
                return Err(rule("NoAvailableOption"));
            }
            id = c as i64;
            let p = match find_option(rows, id) {
                Some(p) => p,
                None => {
                    proof {
                        assert(pool@.contains(id));
                        assert(in_pool(*e, groups@, rows@, id));
                    }
                    return Err(rule("NoAvailableOption"));
                },
            };
            step = if rows[p].steps > 0 { rows[p].steps } else { 0 };
            proof {
                assert(option_row(rows@, id) == Some(rows@[p as int]));
            }
        } else {
            if total <= 0 {
                proof {
                    if avail@.len() > 0 {
                        crate::dice::lemma_positive_total(weights@);
                    }
                    assert forall|x: i64| !(#[trigger] in_pool(*e, groups@, rows@, x) && open_for(e.duplicates, rows@, chosen@, values@, x)) by {
                        if in_pool(*e, groups@, rows@, x) && open_for(e.duplicates, rows@, chosen@, values@, x) {
                            assert(pool@.contains(x));
                            assert(avail@.contains(x));
                        }
                    }
                    assert(slot_blocked(*e, groups@, rows@, chosen@, values@));
                    assert(picks_ok(*e, groups@, rows@, chosen@, values@));
                }
                return Err(rule("NoAvailableOption"));
            }
            let roll = crate::dice::random_below(total);
            proof {
                assert forall|k: int| 0 <= k < weights@.len() implies weights@[k] >= 0 by {
                    assert(weights@[k] > 0);
                }
                crate::dice::lemma_roll_below_total_lands(weights@, roll as int);
            }
            let k = match crate::dice::pick_by_weight(&weights, roll) {
                Some(k) => k,
                None => { return Err(rule("NoAvailableOption")); },
            };
            id = avail[k];
            proof {
                assert(avail@.contains(id));
            }
            let p = match find_option(rows, id) {
                Some(p) => p,
                None => {
                    proof {
                        assert(pool@.contains(id));
                        assert(in_pool(*e, groups@, rows@, id));
                    }
                    return Err(rule("NoAvailableOption"));
                },
            };
            let most = if rows[p].steps > 0 { rows[p].steps } else { 0 };
            step = crate::dice::random_upto(most);
            proof {
                assert(option_row(rows@, id) == Some(rows@[p as int]));
            }
        }
        let p = match find_option(rows, id) {
            Some(p) => p,
            None => { return Err(rule("NoAvailableOption")); },
        };
        let t = rows[p].option_type;
        proof {
            assert(avail@.contains(id));
            assert(pool@.contains(id) && open_for(e.duplicates, rows@, chosen@, values@, id));
            assert(in_pool(*e, groups@, rows@, id));
            lemma_in_pool_i32(*e, groups@, rows@, id);
            assert(option_row(rows@, id) == Some(rows@[p as int]));
            assert(rows@[p as int].steps <= i32::MAX);
        }
        let v: (i32, i32) = (id as i32, step as i32);
        let ghost before = values@;
        proof {
            assert(c == chosen_at(chosen@, before.len() as int));
            if c != 0 {
                assert(v.0 == c);
                assert(v.1 == steps_of(rows@, c as i64));
            } else {
                assert(0 <= v.1 <= steps_of(rows@, v.0 as i64));
            }
            assert(fits_slot(*e, groups@, rows@, chosen@, before, v));
            lemma_picks_push(*e, groups@, rows@, chosen@, before, v);
        }
        values.push(v);
        let ghost seen_before = seen@;
        seen.push(t);
        proof {
            assert(values@ == before.push(v));
            assert forall|u: i64| seen@.contains(u) <==> seen_type(rows@, values@, u) by {
                if seen@.contains(u) {
                    let i = choose|i: int| 0 <= i < seen@.len() && seen@[i] == u;
                    if i < seen_before.len() {
                        assert(seen_before[i] == u);
                        assert(seen_before.contains(u));
                        let j = choose|j: int| 0 <= j < before.len() && type_of(rows@, before[j].0 as i64) == u;
                        assert(values@[j] == before[j]);
                    } else {
                        assert(values@[before.len() as int] == v);
                        assert(type_of(rows@, values@[before.len() as int].0 as i64) == u);
                    }
                }
                if seen_type(rows@, values@, u) {
                    let j = choose|j: int| 0 <= j < values@.len() && type_of(rows@, values@[j].0 as i64) == u;
                    if j < before.len() {
                        assert(values@[j] == before[j]);
                        assert(seen_type(rows@, before, u));
                        assert(seen_before.contains(u));
                        let i = choose|i: int| 0 <= i < seen_before.len() && seen_before[i] == u;
                        assert(seen@[i] == u);
                    } else {
                        assert(seen@[seen_before.len() as int] == t);
                    }
                }
            }
        }
        slot = slot + 1;
    }
    let ghost picks = values@;
    while values.len() < 4
        invariant
            count <= values@.len() <= 4,
            values@.take(count as int) == picks.take(count as int),
            picks.len() == count,
            forall|s: int| count <= s < values@.len() ==> #[trigger] values@[s] == (0i32, 0i32),
        decreases 4 - values@.len(),
    {
        values.push((0, 0));
        proof {
            assert(values@.take(count as int) =~= values@.drop_last().take(count as int));
        }
    }
    let hi = if e.max_rune > e.min_rune { e.max_rune } else { e.min_rune };
    let rr = crate::dice::random_between(e.min_rune, hi);
    proof {
        assert(picks.take(count as int) =~= picks);
        assert(rune_roll(*e, rr));
    }
    Ok(MadeOptions { values, rune_slot_count: #[verifier::truncate] (rr as i32) })
}

} // verus!
