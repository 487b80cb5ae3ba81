//! Valance equipment: the unique options an item may carry, choosing or drawing them, the
//! options a craft may name, and the number of options an enchant draws.
use vstd::prelude::*;
use crate::error::{rule, is_rule, ServerError};
use crate::renewal::{OptionRow, option_row, find_option, pick_option};
use crate::live::{keyed, find_keyed};
use crate::soul::{ascending, insert_sorted};

verus! {

/// What the equipment table says of an item's unique options.
pub struct UniqueData {
    /// 1 for valance equipment.
    pub equip_type: i64,
    /// 1 for advanced equipment, which carries two unique options.
    pub equip_grade: i64,
    /// The integer entries of `UniqueOptionIndex`.
    pub unique_ids: Vec<i64>,
    /// The integer entries of `UniqueOptionGroupIndex`.
    pub unique_groups: Vec<i64>,
    /// `EnableDuplicationUniqueOption`.
    pub duplicates: bool,
}

/// True when group `g` (taken as `i32`) lists option `x`.
pub open spec fn in_group(groups: Seq<(i64, Vec<i64>)>, g: i64, x: i64) -> bool {
    match keyed(groups, (g as i32) as i64) {
        Some(j) => groups[j].1@.contains(x),
        None => false,
    }
}

/// True when `x` is one of the item's unique options, named directly or by a group.
pub open spec fn unique_pool_has(d: UniqueData, groups: Seq<(i64, Vec<i64>)>, x: i64) -> bool {
    ||| d.unique_ids@.contains(x)
    ||| exists|k: int| 0 <= k < d.unique_groups@.len() && in_group(groups, d.unique_groups@[k], x)
}

fn add_once(pool: &mut Vec<i64>, x: i64)
    requires
        ascending(old(pool)@),
    ensures
        ascending(final(pool)@),
        forall|y: i64| final(pool)@.contains(y) <==> (old(pool)@.contains(y) || y == x),
{
    let mut i: usize = 0;
    let mut found = false;
    while i < pool.len()
        invariant
            i <= pool@.len(),
            found <==> pool@.take(i as int).contains(x),
        decreases pool@.len() - i,
    {
        proof {
            let t0 = pool@.take(i as int);
            let t1 = pool@.take(i + 1);
            assert(t1 =~= t0.push(pool@[i as int]));
            if t1.contains(x) && !t0.contains(x) {
                let k = choose|k: int| 0 <= k < t1.len() && t1[k] == x;
                if k < i {
                    assert(t0[k] == x);
                }
            }
            if t0.contains(x) {
                let k = choose|k: int| 0 <= k < t0.len() && t0[k] == x;
                assert(t1[k] == x);
            }
            if pool@[i as int] == x {
                assert(t1[i as int] == x);
            }
        }
        if pool[i] == x {
            found = true;
        }
        i = i + 1;
    }
    proof {
        assert(pool@.take(pool@.len() as int) =~= pool@);
    }
    if !found {
        insert_sorted(pool, x);
    }
}

/// The item's unique options, each once, in increasing order.
pub fn unique_pool(d: &UniqueData, groups: &Vec<(i64, Vec<i64>)>) -> (r: Vec<i64>)
    ensures
        ascending(r@),
        forall|x: i64| r@.contains(x) <==> unique_pool_has(*d, groups@, x),
{
    let mut pool: Vec<i64> = Vec::new();
    let mut k: usize = 0;
    while k < d.unique_ids.len()
        invariant
            k <= d.unique_ids@.len(),
            ascending(pool@),
            forall|x: i64| pool@.contains(x) <==> d.unique_ids@.take(k as int).contains(x),
        decreases d.unique_ids@.len() - k,
    {
        let x = d.unique_ids[k];
        add_once(&mut pool, x);
        proof {
            let t0 = d.unique_ids@.take(k as int);
            let t1 = d.unique_ids@.take(k + 1);
            assert(t1 =~= t0.push(x));
            assert forall|y: i64| t1.contains(y) <==> (t0.contains(y) || y == x) by {
                if t1.contains(y) {
                    let i = choose|i: int| 0 <= i < t1.len() && t1[i] == y;
                    if i < k {
                        assert(t0[i] == y);
                    }
                }
                if t0.contains(y) {
                    let i = choose|i: int| 0 <= i < t0.len() && t0[i] == y;
                    assert(t1[i] == y);
                }
                if y == x {
                    assert(t1[k as int] == y);
                }
            }
        }
        k = k + 1;
    }
    proof {
        assert(d.unique_ids@.take(k as int) =~= d.unique_ids@);
    }
    let mut g: usize = 0;
    while g < d.unique_groups.len()
        invariant
            g <= d.unique_groups@.len(),
            ascending(pool@),
            forall|x: i64| pool@.contains(x) <==>
                (d.unique_ids@.contains(x) || exists|j: int| 0 <= j < g && in_group(groups@, d.unique_groups@[j], x)),
        decreases d.unique_groups@.len() - g,
    {
        let key = (d.unique_groups[g] as i32) as i64;
        match find_keyed(groups, key) {
            None => {
                proof {
                    assert forall|y: i64| pool@.contains(y) <==>
                        (d.unique_ids@.contains(y) || exists|j: int| 0 <= j < g + 1 && in_group(groups@, d.unique_groups@[j], y)) by {
                        if exists|j: int| 0 <= j < g + 1 && in_group(groups@, d.unique_groups@[j], y) {
                            let j = choose|j: int| 0 <= j < g + 1 && in_group(groups@, d.unique_groups@[j], y);
                            if j < g {
                                assert(exists|j2: int| 0 <= j2 < g && in_group(groups@, d.unique_groups@[j2], y));
                            }
                        }
                    }
                }
            },
            Some(gi) => {
                let members = &groups[gi].1;
                let mut m: usize = 0;
                while m < members.len()
                    invariant
                        g < d.unique_groups@.len(),
                        gi < groups@.len(),
                        *members == groups@[gi as int].1,
                        m <= members@.len(),
                        ascending(pool@),
                        forall|x: i64| pool@.contains(x) <==>
                            (d.unique_ids@.contains(x)
                              || (exists|j: int| 0 <= j < g && in_group(groups@, d.unique_groups@[j], x))
                              || members@.take(m as int).contains(x)),
                    decreases members@.len() - m,
                {
                    let x = members[m];
                    add_once(&mut pool, x);
                    proof {
                        let t0 = members@.take(m as int);
                        let t1 = members@.take(m + 1);
                        assert(t1 =~= t0.push(x));
                        assert forall|y: i64| t1.contains(y) <==> (t0.contains(y) || y == x) by {
                            if t1.contains(y) {
                                let i = choose|i: int| 0 <= i < t1.len() && t1[i] == y;
                                if i < m {
                                    assert(t0[i] == y);
                                }
                            }
                            if t0.contains(y) {
                                let i = choose|i: int| 0 <= i < t0.len() && t0[i] == y;
                                assert(t1[i] == y);
                            }
                            if y == x {
                                assert(t1[m as int] == y);
                            }
                        }
                    }
                    m = m + 1;
                }
                proof {
                    assert(members@.take(members@.len() as int) =~= members@);
                    assert forall|y: i64| pool@.contains(y) <==>
                        (d.unique_ids@.contains(y) || exists|j: int| 0 <= j < g + 1 && in_group(groups@, d.unique_groups@[j], y)) by {
                        assert(in_group(groups@, d.unique_groups@[g as int], y) == members@.contains(y));
                        if exists|j: int| 0 <= j < g + 1 && in_group(groups@, d.unique_groups@[j], y) {
                            let j = choose|j: int| 0 <= j < g + 1 && in_group(groups@, d.unique_groups@[j], y);
                            if j < g {
                                assert(exists|j2: int| 0 <= j2 < g && in_group(groups@, d.unique_groups@[j2], y));
                            }
                        }
                        if members@.contains(y) {
                            assert(in_group(groups@, d.unique_groups@[g as int], y));
                        }
                    }
                }
            },
        }
        g = g + 1;
    }
    pool
}

/// The number of unique options an item carries.
pub open spec fn unique_count(d: UniqueData) -> int {
    if d.equip_grade == 1 { 2 } else { 1 }
}

/// True when the player's choice `chosen` of unique options is valid for the item: a
/// valance item, as many choices as it carries, each a unique option of the item in the
/// option table, and, unless duplicates are enabled, no option twice.
pub open spec fn unique_choice_ok(d: UniqueData, groups: Seq<(i64, Vec<i64>)>, rows: Seq<OptionRow>, chosen: Seq<i32>) -> bool {
    &&& d.equip_type == 1
    &&& chosen.len() == unique_count(d)
    &&& forall|k: int| 0 <= k < chosen.len() ==> {
        &&& unique_pool_has(d, groups, #[trigger] chosen[k] as i64)
        &&& d.duplicates || forall|j: int| 0 <= j < k ==> chosen[j] != chosen[k]
        &&& option_row(rows, chosen[k] as i64) is Some
    }
}

/// Sets the unique options a player chooses (for an item of table row `d`): each with its
/// option's full steps. Refused with `NoAvailableOption` when the choice is not valid.
pub fn select_unique(d: &UniqueData, groups: &Vec<(i64, Vec<i64>)>, rows: &Vec<OptionRow>, chosen: &Vec<i32>) -> (r: Result<Vec<(i64, i64)>, ServerError>)
    ensures
        unique_choice_ok(*d, groups@, rows@, chosen@) ==> r is Ok && r->Ok_0@.len() == chosen@.len()
            && forall|k: int| 0 <= k < chosen@.len() ==>
                (#[trigger] r->Ok_0@[k]).0 == chosen@[k] as i64 && r->Ok_0@[k].1 == option_row(rows@, chosen@[k] as i64)->0.steps,
        !unique_choice_ok(*d, groups@, rows@, chosen@) ==> r is Err && is_rule(r->Err_0, "NoAvailableOption"@),
{
    let count: usize = if d.equip_grade == 1 { 2 } else { 1 };
    if d.equip_type != 1 || chosen.len() != count {
        return Err(rule("NoAvailableOption"));
    }
    let pool = unique_pool(d, groups);
    let mut out: Vec<(i64, i64)> = Vec::new();
    let mut k: usize = 0;
    while k < chosen.len()
        invariant
            d.equip_type == 1,
            chosen@.len() == unique_count(*d),
            k <= chosen@.len(),
            forall|x: i64| pool@.contains(x) <==> unique_pool_has(*d, groups@, x),
            out@.len() == k,
            forall|i: int| 0 <= i < k ==> {
                &&& unique_pool_has(*d, groups@, #[trigger] chosen@[i] as i64)
                &&& d.duplicates || forall|j: int| 0 <= j < i ==> chosen@[j] != chosen@[i]
                &&& option_row(rows@, chosen@[i] as i64) is Some
            },
            forall|i: int| 0 <= i < k ==>
                (#[trigger] out@[i]).0 == chosen@[i] as i64 && out@[i].1 == option_row(rows@, chosen@[i] as i64)->0.steps,
        decreases chosen@.len() - k,
    {
        let id = chosen[k];
        let mut repeated = false;
        if !d.duplicates {
            let mut j: usize = 0;
            while j < k
                invariant
                    j <= k < chosen@.len(),
                    id == chosen@[k as int],
                    repeated <==> exists|a: int| 0 <= a < j && chosen@[a] == id,
                decreases k - j,
            {
                if chosen[j] == id {
                    repeated = true;
                }
                j = j + 1;
            }
        }
        let mut in_pool = false;
        let mut p: usize = 0;
        while p < pool.len()
            invariant
                p <= pool@.len(),
                in_pool <==> pool@.take(p as int).contains(id as i64),
            decreases pool@.len() - p,
        {
            proof {
                let t0 = pool@.take(p as int);
                let t1 = pool@.take(p + 1);
                assert(t1 =~= t0.push(pool@[p as int]));
                if t1.contains(id as i64) && !t0.contains(id as i64) {
                    let i = choose|i: int| 0 <= i < t1.len() && t1[i] == id as i64;
                    if i < p {
                        assert(t0[i] == id as i64);
                    }
                }
                if t0.contains(id as i64) {
                    let i = choose|i: int| 0 <= i < t0.len() && t0[i] == id as i64;
                    assert(t1[i] == id as i64);
                }
                if pool@[p as int] == id as i64 {
                    assert(t1[p as int] == id as i64);
                }
            }
            if pool[p] == id as i64 {
                in_pool = true;
            }
            p = p + 1;
        }
        proof {
            assert(pool@.take(pool@.len() as int) =~= pool@);
        }
        if !in_pool || repeated {
            proof {
                assert(!unique_choice_ok(*d, groups@, rows@, chosen@)) by {
                    if unique_choice_ok(*d, groups@, rows@, chosen@) {
                        assert(unique_pool_has(*d, groups@, chosen@[k as int] as i64));
                    }
                }
            }
            return Err(rule("NoAvailableOption"));
        }
        let row = match find_option(rows, id as i64) {
            None => {
                proof {
                    assert(!unique_choice_ok(*d, groups@, rows@, chosen@)) by {
                        if unique_choice_ok(*d, groups@, rows@, chosen@) {
                            assert(unique_pool_has(*d, groups@, chosen@[k as int] as i64));
                        }
                    }
                }
                return Err(rule("NoAvailableOption"));
            },
            Some(i) => i,
        };
        out.push((id as i64, rows[row].steps));
        k = k + 1;
    }
    Ok(out)
}

} // verus!

verus! {

/// True when some group of `row_groups` (each taken as `i32`) lists option `x`.
pub open spec fn craft_allows(groups: Seq<(i64, Vec<i64>)>, row_groups: Seq<i64>, x: i64) -> bool {
    exists|k: int| 0 <= k < row_groups.len() && in_group(groups, row_groups[k], x)
}

/// Refuses a craft that names an option none of the recipe's option groups lists
/// (`InvalidOption`).
pub fn craft_check(groups: &Vec<(i64, Vec<i64>)>, row_groups: &Vec<i64>, chosen: &Vec<i64>) -> (r: Result<(), ServerError>)
    ensures
        r is Ok <==> forall|k: int| 0 <= k < chosen@.len() ==> craft_allows(groups@, row_groups@, #[trigger] chosen@[k]),
        r is Err ==> is_rule(r->Err_0, "InvalidOption"@),
{
    let d = UniqueData { equip_type: 0, equip_grade: 0, unique_ids: Vec::new(), unique_groups: row_groups.clone(), duplicates: false };
    proof {
        assert(d.unique_ids@ =~= Seq::<i64>::empty());
    }
    let allowed = unique_pool(&d, groups);
    let mut k: usize = 0;
    while k < chosen.len()
        invariant
            k <= chosen@.len(),
            forall|x: i64| allowed@.contains(x) <==> unique_pool_has(d, groups@, x),
            d.unique_ids@ =~= Seq::<i64>::empty(),
            d.unique_groups@ == row_groups@,
            forall|i: int| 0 <= i < k ==> craft_allows(groups@, row_groups@, #[trigger] chosen@[i]),
        decreases chosen@.len() - k,
    {
        let x = chosen[k];
        let mut found = false;
        let mut p: usize = 0;
        while p < allowed.len()
            invariant
                p <= allowed@.len(),
                found <==> exists|i: int| 0 <= i < p && allowed@[i] == x,
            decreases allowed@.len() - p,
        {
            if allowed[p] == x {
                found = true;
            }
            p = p + 1;
        }
        proof {
            assert(found <==> allowed@.contains(x));
            assert(unique_pool_has(d, groups@, x) <==> craft_allows(groups@, row_groups@, x));
        }
        if !found {
            return Err(rule("InvalidOption"));
        }
        k = k + 1;
    }
    Ok(())
}

/// A row of the enchant option count table: its rate and the number of options it gives.
pub struct EnchantCount {
    pub rate: i64,
    pub count: i64,
}

/// The rates of the rows.
pub open spec fn count_rates(rows: Seq<EnchantCount>) -> Seq<i64> {
    rows.map_values(|r: EnchantCount| r.rate)
}

/// Draws how many options a valance enchant gives: a row chosen with chance proportional
/// to its rate. Refused with `ItemDataNotFound` when the rates add up to nothing and with
/// `InvalidOption` when the row drawn gives other than 1 to 3 options.
pub fn enchant_count(rows: &Vec<EnchantCount>) -> (r: Result<i64, ServerError>)
    requires
        forall|k: int| 0 <= k < rows@.len() ==> 0 <= #[trigger] rows@[k].rate,
        crate::dice::total_weight(count_rates(rows@)) <= i64::MAX,
    ensures
        crate::dice::total_weight(count_rates(rows@)) <= 0 ==> r is Err && is_rule(r->Err_0, "ItemDataNotFound"@),
        crate::dice::total_weight(count_rates(rows@)) > 0 ==> match r {
            Ok(c) => 1 <= c <= 3 && exists|k: int| 0 <= k < rows@.len() && rows@[k].rate > 0 && #[trigger] rows@[k].count == c,
            Err(e) => is_rule(e, "InvalidOption"@) && exists|k: int| 0 <= k < rows@.len() && rows@[k].rate > 0 && !(1 <= #[trigger] rows@[k].count <= 3),
        },
{
    let mut rates: Vec<i64> = Vec::new();
    let mut total: i64 = 0;
    let mut i: usize = 0;
    while i < rows.len()
        invariant
            i <= rows@.len(),
            forall|k: int| 0 <= k < rows@.len() ==> 0 <= #[trigger] rows@[k].rate,
            crate::dice::total_weight(count_rates(rows@)) <= i64::MAX,
            rates@ =~= count_rates(rows@).take(i as int),
            total == crate::dice::total_weight(rates@),
            0 <= total,
        decreases rows@.len() - i,
    {
        proof {
            crate::dice::lemma_total_weight_push(rates@, rows@[i as int].rate);
            lemma_prefix_total_le(count_rates(rows@), i + 1);
            assert(count_rates(rows@).take(i + 1) =~= rates@.push(rows@[i as int].rate));
        }
        total = total + rows[i].rate;
        rates.push(rows[i].rate);
        i = i + 1;
    }
    proof {
        assert(rates@ =~= count_rates(rows@));
    }
    if total <= 0 {
        return Err(rule("ItemDataNotFound"));
    }
    let roll = crate::dice::random_below(total);
    proof {
        crate::dice::lemma_roll_below_total_lands(rates@, roll as int);
    }
    let k = match crate::dice::pick_by_weight(&rates, roll) {
        Some(k) => k,
        None => { return Err(rule("ItemDataNotFound")); },
    };
    let c = rows[k].count;
    proof {
        assert(rates@[k as int] == rows@[k as int].rate);
    }
    if c < 1 || c > 3 {
        return Err(rule("InvalidOption"));
    }
    Ok(c)
}

proof fn lemma_prefix_total_le(w: Seq<i64>, n: int)
    requires
        0 <= n <= w.len(),
        forall|k: int| 0 <= k < w.len() ==> 0 <= #[trigger] w[k],
    ensures
        crate::dice::total_weight(w.take(n)) <= crate::dice::total_weight(w),
    decreases w.len() - n,
{
    if n < w.len() {
        lemma_prefix_total_le(w, n + 1);
        assert(w.take(n + 1) =~= w.take(n).push(w[n]));
        crate::dice::lemma_total_weight_push(w.take(n), w[n]);
    } else {
        assert(w.take(n) =~= w);
    }
}

} // verus!

verus! {

/// The total ratio a draw from the candidates `cands` shares out.
pub open spec fn draw_weight(cands: Seq<i64>, rows: Seq<OptionRow>) -> int {
    crate::dice::total_weight(crate::renewal::pool_ratios(crate::renewal::draw_pool(cands, rows)))
}

proof fn lemma_draw_weight_push(cands: Seq<i64>, x: i64, rows: Seq<OptionRow>)
    ensures
        draw_weight(cands, rows) <= draw_weight(cands.push(x), rows),
{
    let c2 = cands.push(x);
    assert(c2.drop_last() =~= cands);
    let p = crate::renewal::draw_pool(cands, rows);
    match option_row(rows, x) {
        Some(o) => if o.ratio > 0 {
            assert(crate::renewal::pool_ratios(p.push((x, o.ratio, o.steps))) =~= crate::renewal::pool_ratios(p).push(o.ratio));
            crate::dice::lemma_total_weight_push(crate::renewal::pool_ratios(p), o.ratio);
        },
        None => {},
    }
}

/// The test that an option is not `x`.
pub open spec fn other_than(x: i64) -> spec_fn(i64) -> bool {
    |y: i64| y != x
}

/// The candidates without option `x`.
pub open spec fn without(cands: Seq<i64>, x: i64) -> Seq<i64> {
    cands.filter(other_than(x))
}

proof fn lemma_without_lighter(cands: Seq<i64>, x: i64, rows: Seq<OptionRow>)
    ensures
        draw_weight(without(cands, x), rows) <= draw_weight(cands, rows),
    decreases cands.len(),
{
    if cands.len() > 0 {
        let front = cands.drop_last();
        let last = cands.last();
        lemma_without_lighter(front, x, rows);
        assert(cands =~= front.push(last));
        front.lemma_filter_push(last, other_than(x));
        lemma_draw_weight_push(front, last, rows);
        let wf = without(front, x);
        if last != x {
            assert(without(cands, x) == wf.push(last));
            assert(wf.push(last).drop_last() =~= wf);
            assert(front.push(last).drop_last() =~= front);
            let pw = crate::renewal::draw_pool(wf, rows);
            let pf = crate::renewal::draw_pool(front, rows);
            match option_row(rows, last) {
                Some(o) => if o.ratio > 0 {
                    assert(crate::renewal::pool_ratios(pw.push((last, o.ratio, o.steps))) =~= crate::renewal::pool_ratios(pw).push(o.ratio));
                    assert(crate::renewal::pool_ratios(pf.push((last, o.ratio, o.steps))) =~= crate::renewal::pool_ratios(pf).push(o.ratio));
                    crate::dice::lemma_total_weight_push(crate::renewal::pool_ratios(pw), o.ratio);
                    crate::dice::lemma_total_weight_push(crate::renewal::pool_ratios(pf), o.ratio);
                },
                None => {},
            }
        } else {
            assert(without(cands, x) == wf);
        }
    } else {
        assert(without(cands, x) =~= cands);
    }
}

/// True when `p` is the item's unique option pool as `unique_pool` gives it: its options
/// in increasing order.
pub open spec fn unique_order(d: UniqueData, groups: Seq<(i64, Vec<i64>)>, p: Seq<i64>) -> bool {
    ascending(p) && forall|x: i64| p.contains(x) <==> unique_pool_has(d, groups, x)
}

/// True when `pick` may come from a draw among `cands`: a candidate with a positive
/// ratio and a step from 0 to its step count.
pub open spec fn drawn_from(cands: Seq<i64>, rows: Seq<OptionRow>, pick: (i64, i64)) -> bool {
    let pool = crate::renewal::draw_pool(cands, rows);
    exists|i: int| 0 <= i < pool.len() && (#[trigger] pool[i]).0 == pick.0
        && 0 <= pick.1 <= (if pool[i].2 > 0 { pool[i].2 } else { 0 })
}

fn drop_option(cands: &Vec<i64>, x: i64) -> (r: Vec<i64>)
    ensures
        r@ == without(cands@, x),
{
    let mut out: Vec<i64> = Vec::new();
    let mut i: usize = 0;
    while i < cands.len()
        invariant
            i <= cands@.len(),
            out@ == without(cands@.take(i as int), x),
        decreases cands@.len() - i,
    {
        let y = cands[i];
        proof {
            assert(cands@.take(i + 1) =~= cands@.take(i as int).push(y));
            cands@.take(i as int).lemma_filter_push(y, other_than(x));
        }
        if y != x {
            out.push(y);
        }
        i = i + 1;
    }
    proof {
        assert(cands@.take(cands@.len() as int) =~= cands@);
    }
    out
}

/// Decides whether the ratios of an item's unique options fit the `i64` sums a draw
/// makes: true exactly when the total ratio of a draw from the item's unique option pool
/// is at most `i64::MAX`.
pub fn unique_weights_fit(d: &UniqueData, groups: &Vec<(i64, Vec<i64>)>, rows: &Vec<OptionRow>) -> (r: bool)
    ensures
        r == forall|p: Seq<i64>| unique_order(*d, groups@, p) ==> draw_weight(p, rows@) <= i64::MAX,
        exists|p: Seq<i64>| #[trigger] unique_order(*d, groups@, p) && (r <==> draw_weight(p, rows@) <= i64::MAX),
{
    let pool = unique_pool(d, groups);
    let mut total: i128 = 0;
    let mut i: usize = 0;
    while i < pool.len()
        invariant
            i <= pool@.len(),
            0 <= total <= draw_weight(pool@.take(i as int), rows@),
            total <= i64::MAX ==> total == draw_weight(pool@.take(i as int), rows@),
            total <= i64::MAX + 0x8000_0000_0000_0000,
        decreases pool@.len() - i,
    {
        let x = pool[i];
        proof {
            assert(pool@.take(i + 1) =~= pool@.take(i as int).push(x));
            assert(pool@.take(i + 1).drop_last() =~= pool@.take(i as int));
        }
        if total <= i64::MAX as i128 {
            match find_option(rows, x) {
                Some(k) => {
                    let o = &rows[k];
                    if o.ratio > 0 {
                        proof {
                            let pp = crate::renewal::draw_pool(pool@.take(i as int), rows@);
                            assert(crate::renewal::pool_ratios(pp.push((x, o.ratio, o.steps))) =~= crate::renewal::pool_ratios(pp).push(o.ratio));
                            crate::dice::lemma_total_weight_push(crate::renewal::pool_ratios(pp), o.ratio);
                        }
                        total = total + o.ratio as i128;
                    }
                },
                None => {},
            }
        }
        proof {
            lemma_draw_weight_push(pool@.take(i as int), x, rows@);
        }
        i = i + 1;
    }
    proof {
        assert(pool@.take(pool@.len() as int) =~= pool@);
        assert forall|p: Seq<i64>| unique_order(*d, groups@, p) implies p == pool@ by {
            lemma_same_order(p, pool@);
        }
        assert(unique_order(*d, groups@, pool@));
        if total > i64::MAX as i128 {
            assert(draw_weight(pool@, rows@) > i64::MAX);
        }
    }
    total <= i64::MAX as i128
}

proof fn lemma_same_order(a: Seq<i64>, b: Seq<i64>)
    requires
        ascending(a),
        ascending(b),
        forall|x: i64| a.contains(x) <==> b.contains(x),
    ensures
        a == b,
    decreases a.len(),
{
    if a.len() == 0 {
        if b.len() > 0 {
            assert(b.contains(b[0]));
        }
        assert(a =~= b);
    } else if b.len() == 0 {
        assert(a.contains(a[0]));
    } else {
        let la = a.last();
        let lb = b.last();
        assert(a.contains(la));
        assert(b.contains(lb));
        if la < lb {
            assert(a.contains(lb));
            let k = choose|k: int| 0 <= k < a.len() && a[k] == lb;
            assert(a[k] <= la);
        } else if lb < la {
            assert(b.contains(la));
            let k = choose|k: int| 0 <= k < b.len() && b[k] == la;
            assert(b[k] <= lb);
        }
        let a2 = a.drop_last();
        let b2 = b.drop_last();
        assert forall|x: i64| a2.contains(x) <==> b2.contains(x) by {
            if a2.contains(x) {
                let k = choose|k: int| 0 <= k < a2.len() && a2[k] == x;
                assert(a.contains(x));
                assert(x < la);
                let j = choose|j: int| 0 <= j < b.len() && b[j] == x;
                assert(j != b.len() - 1);
                assert(b2[j] == x);
            }
            if b2.contains(x) {
                let k = choose|k: int| 0 <= k < b2.len() && b2[k] == x;
                assert(b.contains(x));
                assert(x < lb);
                let j = choose|j: int| 0 <= j < a.len() && a[j] == x;
                assert(j != a.len() - 1);
                assert(a2[j] == x);
            }
        }
        lemma_same_order(a2, b2);
        assert(a =~= a2.push(la));
        assert(b =~= b2.push(lb));
    }
}

/// Draws the unique options of a newly made valance item (of table row `d`): one for a
/// plain item, two for an advanced one, each from the item's unique option pool with a
/// chance proportional to its ratio and a step from 0 to its step count; the second draw
/// leaves out the first option unless the item allows the same option twice. Refused with
/// `InvalidOption` when a draw has no option with a positive ratio.
pub fn unique_options(d: &UniqueData, groups: &Vec<(i64, Vec<i64>)>, rows: &Vec<OptionRow>) -> (r: Result<Vec<(i64, i64)>, ServerError>)
    requires
        forall|p: Seq<i64>| unique_order(*d, groups@, p) ==> draw_weight(p, rows@) <= i64::MAX,
    ensures
        r is Err ==> is_rule(r->Err_0, "InvalidOption"@),
        exists|p: Seq<i64>| #[trigger] unique_order(*d, groups@, p) && {
            &&& crate::renewal::draw_pool(p, rows@).len() == 0 ==> r is Err
            &&& (crate::renewal::draw_pool(p, rows@).len() > 0 && (unique_count(*d) == 1 || d.duplicates)) ==> r is Ok
            &&& r is Ok ==> ({
                let v = r->Ok_0@;
                &&& v.len() == unique_count(*d)
                &&& drawn_from(p, rows@, v[0])
                &&& v.len() == 2 ==> drawn_from(if d.duplicates { p } else { without(p, v[0].0) }, rows@, v[1])
            })
        },
{
    let pool = unique_pool(d, groups);
    proof {
        assert(unique_order(*d, groups@, pool@));
    }
    let count: usize = if d.equip_grade == 1 { 2 } else { 1 };
    let first = pick_option(&pool, rows)?;
    let mut out: Vec<(i64, i64)> = Vec::new();
    out.push(first);
    if count == 2 {
        let cands = if d.duplicates { pool.clone() } else { drop_option(&pool, first.0) };
        proof {
            assert(cands@ == if d.duplicates { pool@ } else { without(pool@, first.0) });
            lemma_without_lighter(pool@, first.0, rows@);
        }
        let second = pick_option(&cands, rows)?;
        out.push(second);
    }
    Ok(out)
}

} // verus!
