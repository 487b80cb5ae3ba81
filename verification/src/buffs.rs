//! Class buffs and team level buffs: the points heroes and unique equipment earn per class,
//! what buffs cost, and the checks of buying them.
use vstd::prelude::*;
use crate::error::{rule, is_rule, ServerError};
use crate::forms::Request;
use crate::text::str_eq;

verus! {

/// The bound on the numbers that go into class points, which keeps every sum within
/// `i64`.
pub open spec fn point_bound() -> int {
    0x10_0000
}

/// The points a hero earns for its class: one `per_level` per level above the first, one
/// `per_star` per star above the first, one `per_transcend` per transcendence.
pub open spec fn hero_points_of(level: i64, star: i64, transcend: i64, per_level: i64, per_star: i64, per_transcend: i64) -> int {
    (level - 1) * per_level + (star - 1) * per_star + transcend * per_transcend
}

/// Computes the class points of one hero; see `hero_points_of`.
pub fn hero_points(level: i64, star: i64, transcend: i64, per_level: i64, per_star: i64, per_transcend: i64) -> (r: i64)
    requires
        -point_bound() <= level <= point_bound(),
        -point_bound() <= star <= point_bound(),
        -point_bound() <= transcend <= point_bound(),
        -point_bound() <= per_level <= point_bound(),
        -point_bound() <= per_star <= point_bound(),
        -point_bound() <= per_transcend <= point_bound(),
    ensures
        r == hero_points_of(level, star, transcend, per_level, per_star, per_transcend),
{
    proof {
        assert(-0x100_0010_0000 <= (level - 1) * per_level <= 0x100_0010_0000) by (nonlinear_arith)
            requires -0x10_0000 <= level <= 0x10_0000, -0x10_0000 <= per_level <= 0x10_0000;
        assert(-0x100_0010_0000 <= (star - 1) * per_star <= 0x100_0010_0000) by (nonlinear_arith)
            requires -0x10_0000 <= star <= 0x10_0000, -0x10_0000 <= per_star <= 0x10_0000;
        assert(-0x100_0000_0000 <= transcend * per_transcend <= 0x100_0000_0000) by (nonlinear_arith)
            requires -0x10_0000 <= transcend <= 0x10_0000, -0x10_0000 <= per_transcend <= 0x10_0000;
    }
    (level - 1) * per_level + (star - 1) * per_star + transcend * per_transcend
}

/// The points earned by class `tag` from the first `n` contributions.
pub open spec fn earned_by(contribs: Seq<(i64, i64)>, tag: i64, n: int) -> int
    decreases n,
{
    if n <= 0 {
        0
    } else {
        earned_by(contribs, tag, n - 1) + if contribs[n - 1].0 == tag { contribs[n - 1].1 as int } else { 0 }
    }
}

/// True when a class shows in the points list: a class of the buff table, or one that
/// earned something.
pub open spec fn class_listed(tags: Seq<i64>, contribs: Seq<(i64, i64)>, tag: i64) -> bool {
    tags.contains(tag) || exists|k: int| 0 <= k < contribs.len() && contribs[k].0 == tag
}

/// True when `s` is strictly increasing by class.
pub open spec fn by_class(s: Seq<(i64, i64)>) -> bool {
    forall|a: int, b: int| 0 <= a < b < s.len() ==> s[a].0 < s[b].0
}

proof fn lemma_earned_bound(contribs: Seq<(i64, i64)>, tag: i64, n: int)
    requires
        0 <= n <= contribs.len(),
        forall|k: int| 0 <= k < contribs.len() ==> -point_bound() * point_bound() * 4 <= #[trigger] contribs[k].1 <= point_bound() * point_bound() * 4,
    ensures
        -n * point_bound() * point_bound() * 4 <= earned_by(contribs, tag, n) <= n * point_bound() * point_bound() * 4,
    decreases n,
{
    if n > 0 {
        lemma_earned_bound(contribs, tag, n - 1);
        assert(contribs[n - 1].1 <= point_bound() * point_bound() * 4);
    }
}

/// The class points of every listed class, by increasing class: what each earned from the
/// contributions (a hero's points, or a unique item's stars times its points), each
/// contribution given as `(class, points)`.
pub fn class_earned(tags: &Vec<i64>, contribs: &Vec<(i64, i64)>) -> (r: Vec<(i64, i64)>)
    requires
        contribs@.len() <= 0x10_0000,
        forall|k: int| 0 <= k < contribs@.len() ==> -point_bound() * point_bound() * 4 <= #[trigger] contribs@[k].1 <= point_bound() * point_bound() * 4,
    ensures
        by_class(r@),
        forall|t: i64| (exists|k: int| 0 <= k < r@.len() && r@[k].0 == t) <==> class_listed(tags@, contribs@, t),
        forall|k: int| 0 <= k < r@.len() ==> (#[trigger] r@[k]).1 == earned_by(contribs@, r@[k].0, contribs@.len() as int),
{
    let mut keys: Vec<i64> = Vec::new();
    let mut i: usize = 0;
    while i < tags.len()
        invariant
            i <= tags@.len(),
            crate::soul::ascending(keys@),
            forall|x: i64| keys@.contains(x) <==> tags@.take(i as int).contains(x),
        decreases tags@.len() - i,
    {
        let x = tags[i];
        let mut found = false;
        let mut p: usize = 0;
        while p < keys.len()
            invariant
                p <= keys@.len(),
                found <==> exists|q: int| 0 <= q < p && keys@[q] == x,
            decreases keys@.len() - p,
        {
            if keys[p] == x {
                found = true;
            }
            p = p + 1;
        }
        let ghost before = keys@;
        if !found {
            crate::soul::insert_sorted(&mut keys, x);
        }
        proof {
            let t0 = tags@.take(i as int);
            let t1 = tags@.take(i + 1);
            assert(t1 =~= t0.push(x));
            assert forall|y: i64| keys@.contains(y) <==> t1.contains(y) by {
                if t1.contains(y) {
                    let a = choose|a: int| 0 <= a < t1.len() && t1[a] == y;
                    if a < i {
                        assert(t0[a] == y);
                    }
                }
                if t0.contains(y) {
                    let a = choose|a: int| 0 <= a < t0.len() && t0[a] == y;
                    assert(t1[a] == y);
                }
                if y == x {
                    assert(t1[i as int] == y);
                    if found {
                        let q = choose|q: int| 0 <= q < before.len() && before[q] == x;
                        assert(before.contains(x));
                    }
                }
            }
        }
        i = i + 1;
    }
    let mut j: usize = 0;
    while j < contribs.len()
        invariant
            j <= contribs@.len(),
            crate::soul::ascending(keys@),
            forall|x: i64| keys@.contains(x) <==> (tags@.take(tags@.len() as int).contains(x)
                || exists|k: int| 0 <= k < j && contribs@[k].0 == x),
        decreases contribs@.len() - j,
    {
        let x = contribs[j].0;
        let mut found = false;
        let mut p: usize = 0;
        while p < keys.len()
            invariant
                p <= keys@.len(),
                found <==> exists|q: int| 0 <= q < p && keys@[q] == x,
            decreases keys@.len() - p,
        {
            if keys[p] == x {
                found = true;
            }
            p = p + 1;
        }
        let ghost before = keys@;
        if !found {
            crate::soul::insert_sorted(&mut keys, x);
        }
        proof {
            assert forall|y: i64| keys@.contains(y) <==> (tags@.take(tags@.len() as int).contains(y)
                || exists|k: int| 0 <= k < j + 1 && contribs@[k].0 == y) by {
                if exists|k: int| 0 <= k < j + 1 && contribs@[k].0 == y {
                    let k = choose|k: int| 0 <= k < j + 1 && contribs@[k].0 == y;
                    if k < j {
                        assert(exists|k2: int| 0 <= k2 < j && contribs@[k2].0 == y);
                    }
                }
                if y == x && found {
                    assert(before.contains(x));
                }
            }
        }
        j = j + 1;
    }
    proof {
        assert(tags@.take(tags@.len() as int) =~= tags@);
    }
    let mut out: Vec<(i64, i64)> = Vec::new();
    let mut k: usize = 0;
    let n = contribs.len();
    while k < keys.len()
        invariant
            n == contribs@.len(),
            n <= 0x10_0000,
            forall|q: int| 0 <= q < contribs@.len() ==> -point_bound() * point_bound() * 4 <= #[trigger] contribs@[q].1 <= point_bound() * point_bound() * 4,
            k <= keys@.len(),
            crate::soul::ascending(keys@),
            out@.len() == k,
            forall|q: int| 0 <= q < k ==> (#[trigger] out@[q]).0 == keys@[q]
                && out@[q].1 == earned_by(contribs@, keys@[q], n as int),
        decreases keys@.len() - k,
    {
        let t = keys[k];
        let mut sum: i64 = 0;
        let mut m: usize = 0;
        while m < n
            invariant
                n == contribs@.len(),
                n <= 0x10_0000,
                forall|q: int| 0 <= q < contribs@.len() ==> -point_bound() * point_bound() * 4 <= #[trigger] contribs@[q].1 <= point_bound() * point_bound() * 4,
                m <= n,
                sum == earned_by(contribs@, t, m as int),
            decreases n - m,
        {
            proof {
                lemma_earned_bound(contribs@, t, m + 1);
                assert(point_bound() * point_bound() * 4 == 0x400_0000_0000);
                assert(-(m + 1) * 0x400_0000_0000 >= -0x10_0000 * 0x400_0000_0000) by (nonlinear_arith)
                    requires m + 1 <= 0x10_0000;
                assert((m + 1) * 0x400_0000_0000 <= 0x10_0000 * 0x400_0000_0000) by (nonlinear_arith)
                    requires m + 1 <= 0x10_0000;
            }
            if contribs[m].0 == t {
                sum = sum + contribs[m].1;
            }
            m = m + 1;
        }
        out.push((t, sum));
        k = k + 1;
    }
    proof {
        assert forall|a: int, b: int| 0 <= a < b < out@.len() implies out@[a].0 < out@[b].0 by {
            assert(out@[a].0 == keys@[a] && out@[b].0 == keys@[b]);
        }
        assert forall|t: i64| (exists|q: int| 0 <= q < out@.len() && out@[q].0 == t) <==> class_listed(tags@, contribs@, t) by {
            if exists|q: int| 0 <= q < out@.len() && out@[q].0 == t {
                let q = choose|q: int| 0 <= q < out@.len() && out@[q].0 == t;
                assert(keys@[q] == t);
                assert(keys@.contains(t));
            }
            if class_listed(tags@, contribs@, t) {
                assert(keys@.contains(t));
                let q = choose|q: int| 0 <= q < keys@.len() && keys@[q] == t;
                assert(out@[q].0 == t);
            }
        }
    }
    out
}

} // verus!

verus! {

/// A row of the class buff table.
pub struct ClassBuffRow {
    pub tag: i64,
    pub index: i64,
    pub level: i64,
    pub need_point: i64,
    pub need_index: i64,
    pub need_level: i64,
    pub need_heroes: i64,
}

/// A buff a player has: its class, index and level.
pub struct OwnedBuff {
    pub tag: i64,
    pub index: i64,
    pub level: i64,
}

/// The points the first `n` rows ask for buff `index` of class `tag` at levels above
/// `from` up to `to`.
pub open spec fn cost_between(rows: Seq<ClassBuffRow>, tag: i64, index: i64, from: i64, to: i64, n: int) -> int
    decreases n,
{
    if n <= 0 {
        0
    } else {
        let r = rows[n - 1];
        cost_between(rows, tag, index, from, to, n - 1)
            + if r.tag == tag && r.index == index && from < r.level && r.level <= to { r.need_point as int } else { 0 }
    }
}

/// The points spent by the first `n` buffs of class `tag`: each buff's cost up to its
/// level.
pub open spec fn spent_by(rows: Seq<ClassBuffRow>, buffs: Seq<OwnedBuff>, tag: i64, n: int) -> int
    decreases n,
{
    if n <= 0 {
        0
    } else {
        let b = buffs[n - 1];
        spent_by(rows, buffs, tag, n - 1)
            + if b.tag == tag { cost_between(rows, tag, b.index, i64::MIN, b.level, rows.len() as int) } else { 0 }
    }
}

/// True when the buff table and the player's buffs are small enough for their sums.
pub open spec fn buff_tables_ok(rows: Seq<ClassBuffRow>, buffs: Seq<OwnedBuff>) -> bool {
    &&& rows.len() <= 0x10_0000
    &&& buffs.len() <= 0x10_0000
    &&& forall|k: int| 0 <= k < rows.len() ==> -0x10_0000 <= #[trigger] rows[k].need_point <= 0x10_0000
}

proof fn lemma_cost_bound(rows: Seq<ClassBuffRow>, tag: i64, index: i64, from: i64, to: i64, n: int)
    requires
        0 <= n <= rows.len(),
        forall|k: int| 0 <= k < rows.len() ==> -0x10_0000 <= #[trigger] rows[k].need_point <= 0x10_0000,
    ensures
        -n * 0x10_0000 <= cost_between(rows, tag, index, from, to, n) <= n * 0x10_0000,
    decreases n,
{
    if n > 0 {
        lemma_cost_bound(rows, tag, index, from, to, n - 1);
        assert(-0x10_0000 <= rows[n - 1].need_point <= 0x10_0000);
    }
}

proof fn lemma_spent_bound(rows: Seq<ClassBuffRow>, buffs: Seq<OwnedBuff>, tag: i64, n: int)
    requires
        0 <= n <= buffs.len(),
        buff_tables_ok(rows, buffs),
    ensures
        -n * 0x100_0000_0000 <= spent_by(rows, buffs, tag, n) <= n * 0x100_0000_0000,
    decreases n,
{
    if n > 0 {
        lemma_spent_bound(rows, buffs, tag, n - 1);
        let b = buffs[n - 1];
        lemma_cost_bound(rows, tag, b.index, i64::MIN, b.level, rows.len() as int);
        assert(rows.len() * 0x10_0000 <= 0x100_0000_0000) by (nonlinear_arith)
            requires rows.len() <= 0x10_0000;
    }
}

/// Adds up the points the rows ask for buff `index` of class `tag` at levels above `from`
/// up to `to`.
pub fn cost_of(rows: &Vec<ClassBuffRow>, tag: i64, index: i64, from: i64, to: i64) -> (r: i64)
    requires
        rows@.len() <= 0x10_0000,
        forall|k: int| 0 <= k < rows@.len() ==> -0x10_0000 <= #[trigger] rows@[k].need_point <= 0x10_0000,
    ensures
        r == cost_between(rows@, tag, index, from, to, rows@.len() as int),
{
    let mut sum: i64 = 0;
    let mut i: usize = 0;
    let n = rows.len();
    while i < n
        invariant
            n == rows@.len(),
            n <= 0x10_0000,
            forall|k: int| 0 <= k < rows@.len() ==> -0x10_0000 <= #[trigger] rows@[k].need_point <= 0x10_0000,
            i <= n,
            sum == cost_between(rows@, tag, index, from, to, i as int),
        decreases n - i,
    {
        proof {
            lemma_cost_bound(rows@, tag, index, from, to, i + 1);
            assert((i + 1) * 0x10_0000 <= 0x100_0000_0000) by (nonlinear_arith)
                requires i + 1 <= 0x10_0000;
        }
        let r = &rows[i];
        if r.tag == tag && r.index == index && from < r.level && r.level <= to {
            sum = sum + r.need_point;
        }
        i = i + 1;
    }
    sum
}

/// The points of class `tag`: the points earned (at least what was earned before,
/// `old`), and those left after what the player's buffs of the class cost (never below 0).
pub fn class_points(rows: &Vec<ClassBuffRow>, buffs: &Vec<OwnedBuff>, tag: i64, earned: i64, old: i64) -> (r: (i64, i64))
    requires
        buff_tables_ok(rows@, buffs@),
        -0x100_0000_0000_0000 <= earned <= 0x100_0000_0000_0000,
        -0x100_0000_0000_0000 <= old <= 0x100_0000_0000_0000,
    ensures
        ({
            let total = if earned > old { earned as int } else { old as int };
            let left = total - spent_by(rows@, buffs@, tag, buffs@.len() as int);
            r.0 == (if left > 0 { left } else { 0 }) && r.1 == total
        }),
{
    let total = if earned > old { earned } else { old };
    let mut spent: i64 = 0;
    let mut i: usize = 0;
    let n = buffs.len();
    while i < n
        invariant
            n == buffs@.len(),
            buff_tables_ok(rows@, buffs@),
            i <= n,
            spent == spent_by(rows@, buffs@, tag, i as int),
        decreases n - i,
    {
        proof {
            lemma_spent_bound(rows@, buffs@, tag, i + 1);
            assert((i + 1) * 0x100_0000_0000 <= 0x10_0000 * 0x100_0000_0000) by (nonlinear_arith)
                requires i + 1 <= 0x10_0000;
        }
        let b = &buffs[i];
        if b.tag == tag {
            let c = cost_of(rows, tag, b.index, i64::MIN, b.level);
            spent = spent + c;
        }
        i = i + 1;
    }
    proof {
        lemma_spent_bound(rows@, buffs@, tag, n as int);
        assert(n * 0x100_0000_0000 <= 0x10_0000 * 0x100_0000_0000) by (nonlinear_arith)
            requires n <= 0x10_0000;
    }
    let left = total - spent;
    (if left > 0 { left } else { 0 }, total)
}

/// A class's points: its class, the points left and the points earned.
pub struct ClassPoint {
    pub tag: i64,
    pub buff_point: i64,
    pub earned: i64,
}

/// The first row of the table for buff `index` of class `tag` at `level`.
pub open spec fn buff_row(rows: Seq<ClassBuffRow>, tag: i64, index: i64, level: i64, k: int) -> Option<int>
    decreases rows.len() - k,
{
    if k < 0 || k >= rows.len() {
        None
    } else if rows[k].tag == tag && rows[k].index == index && rows[k].level == level {
        Some(k)
    } else {
        buff_row(rows, tag, index, level, k + 1)
    }
}

/// The first points entry of class `tag`.
pub open spec fn point_entry(points: Seq<ClassPoint>, tag: i64, k: int) -> Option<int>
    decreases points.len() - k,
{
    if k < 0 || k >= points.len() {
        None
    } else if points[k].tag == tag {
        Some(k)
    } else {
        point_entry(points, tag, k + 1)
    }
}

/// The sum of the points earned by the first `n` classes.
pub open spec fn earned_total(points: Seq<ClassPoint>, n: int) -> int
    decreases n,
{
    if n <= 0 { 0 } else { earned_total(points, n - 1) + points[n - 1].earned }
}

/// Finds the points of class `tag` after checking that the class buffs are open: the
/// class must have points (`InvalidTagType`) and all classes together must have earned
/// `open_point` (`NotEnoughPoint`).
pub fn class_buff_open(points: &Vec<ClassPoint>, tag: i64, open_point: i64) -> (r: Result<usize, ServerError>)
    requires
        points@.len() <= 0x10_0000,
        forall|k: int| 0 <= k < points@.len() ==> -0x100_0000_0000 <= #[trigger] points@[k].earned <= 0x100_0000_0000,
    ensures
        match point_entry(points@, tag, 0) {
            None => r is Err && is_rule(r->Err_0, "InvalidTagType"@),
            Some(k) => if earned_total(points@, points@.len() as int) < open_point {
                r is Err && is_rule(r->Err_0, "NotEnoughPoint"@)
            } else {
                r is Ok && r->Ok_0 as int == k
            },
        },
{
    let n = points.len();
    let mut found: Option<usize> = None;
    let mut k: usize = 0;
    while k < n && found.is_none()
        invariant
            n == points@.len(),
            k <= n,
            found is None ==> point_entry(points@, tag, 0) == point_entry(points@, tag, k as int),
            found matches Some(j) ==> point_entry(points@, tag, 0) == Some(j as int),
        decreases n - k,
    {
        if points[k].tag == tag {
            found = Some(k);
        }
        k = k + 1;
    }
    let at = match found {
        None => { return Err(rule("InvalidTagType")); },
        Some(at) => at,
    };
    let mut total: i64 = 0;
    let mut i: usize = 0;
    while i < n
        invariant
            n == points@.len(),
            n <= 0x10_0000,
            forall|q: int| 0 <= q < points@.len() ==> -0x100_0000_0000 <= #[trigger] points@[q].earned <= 0x100_0000_0000,
            i <= n,
            total == earned_total(points@, i as int),
            -i * 0x100_0000_0000 <= total <= i * 0x100_0000_0000,
        decreases n - i,
    {
        proof {
            assert((i + 1) * 0x100_0000_0000 <= 0x10_0000 * 0x100_0000_0000) by (nonlinear_arith)
                requires i + 1 <= 0x10_0000;
            assert(-0x100_0000_0000 <= points@[i as int].earned <= 0x100_0000_0000);
        }
        total = total + points[i].earned;
        i = i + 1;
    }
    if total < open_point {
        return Err(rule("NotEnoughPoint"));
    }
    Ok(at)
}

/// The checks of raising buff `index` of class `tag` from `current` to `level`, with
/// `buff_point` points left: the buff must exist at that level (`ItemDataNotFound`), the
/// level must go up (`InvalidLevel`), the points must cover the levels in between
/// (`NotEnoughPoint`), the buff it needs must have its level (`NotEnoughClassBuffLevel`,
/// `required` being the level of buff `need_index` of the row found), and the player must
/// own enough heroes of the class (`NotEnoughHero`). Gives the row found.
pub open spec fn level_up_of(rows: Seq<ClassBuffRow>, tag: i64, index: i64, level: i64, current: i64, buff_point: i64, required: i64, heroes: i64) -> Result<int, Seq<char>> {
    match buff_row(rows, tag, index, level, 0) {
        None => Err("ItemDataNotFound"@),
        Some(k) => if level <= current {
            Err("InvalidLevel"@)
        } else if cost_between(rows, tag, index, current, level, rows.len() as int) > buff_point {
            Err("NotEnoughPoint"@)
        } else if required < rows[k].need_level {
            Err("NotEnoughClassBuffLevel"@)
        } else if heroes < rows[k].need_heroes {
            Err("NotEnoughHero"@)
        } else {
            Ok(k)
        },
    }
}

proof fn lemma_buff_row_bounds(rows: Seq<ClassBuffRow>, tag: i64, index: i64, level: i64, k: int)
    requires
        0 <= k,
    ensures
        buff_row(rows, tag, index, level, k) matches Some(j) ==> k <= j < rows.len(),
    decreases rows.len() - k,
{
    if k < rows.len() && !(rows[k].tag == tag && rows[k].index == index && rows[k].level == level) {
        lemma_buff_row_bounds(rows, tag, index, level, k + 1);
    }
}

/// Finds the row of a buff level.
pub fn find_buff_row(rows: &Vec<ClassBuffRow>, tag: i64, index: i64, level: i64) -> (r: Option<usize>)
    ensures
        match buff_row(rows@, tag, index, level, 0) {
            None => r is None,
            Some(k) => r == Some(k as usize),
        },
{
    let n = rows.len();
    let mut k: usize = 0;
    while k < n
        invariant
            n == rows@.len(),
            k <= n,
            buff_row(rows@, tag, index, level, 0) == buff_row(rows@, tag, index, level, k as int),
        decreases n - k,
    {
        if rows[k].tag == tag && rows[k].index == index && rows[k].level == level {
            return Some(k);
        }
        k = k + 1;
    }
    None
}

/// Checks raising a buff once the row is known; see `level_up_of`.
pub fn level_up_check(rows: &Vec<ClassBuffRow>, at: usize, tag: i64, index: i64, level: i64, current: i64, buff_point: i64, required: i64, heroes: i64) -> (r: Result<(), ServerError>)
    requires
        buff_row(rows@, tag, index, level, 0) == Some(at as int),
        rows@.len() <= 0x10_0000,
        forall|k: int| 0 <= k < rows@.len() ==> -0x10_0000 <= #[trigger] rows@[k].need_point <= 0x10_0000,
    ensures
        match level_up_of(rows@, tag, index, level, current, buff_point, required, heroes) {
            Ok(_) => r is Ok,
            Err(e) => r is Err && is_rule(r->Err_0, e),
        },
{
    proof {
        lemma_buff_row_bounds(rows@, tag, index, level, 0);
    }
    if level <= current {
        return Err(rule("InvalidLevel"));
    }
    if cost_of(rows, tag, index, current, level) > buff_point {
        return Err(rule("NotEnoughPoint"));
    }
    if required < rows[at].need_level {
        return Err(rule("NotEnoughClassBuffLevel"));
    }
    if heroes < rows[at].need_heroes {
        return Err(rule("NotEnoughHero"));
    }
    Ok(())
}

} // verus!

verus! {

/// A row of the team level table: its level and the buff options it opens.
pub struct TeamLevelRow {
    pub level: i64,
    pub option: i64,
    pub bonus: i64,
}

/// The first team level row of level `level`.
pub open spec fn team_row(rows: Seq<TeamLevelRow>, level: i64, k: int) -> Option<int>
    decreases rows.len() - k,
{
    if k < 0 || k >= rows.len() {
        None
    } else if rows[k].level == level {
        Some(k)
    } else {
        team_row(rows, level, k + 1)
    }
}

/// Checks the team level buff a player reinforces (`BuffTeamLevel`): a level the team has
/// reached (`NotEnoughTeamLevel`), in the table (`InvalidTeamLevel`), whose options the
/// request names (`OptionIndex`, `BonusOptionIndex`; `InvalidOption`). Gives the level and
/// its options.
pub fn team_buff_check(req: &Request, team_level: i64, rows: &Vec<TeamLevelRow>) -> (r: Result<(i64, i64, i64), ServerError>)
    ensures
        match req.number_of("BuffTeamLevel"@, 0) {
            None => r is Err && is_rule(r->Err_0, "InvalidValue"@),
            Some(level) => if level > team_level {
                r is Err && is_rule(r->Err_0, "NotEnoughTeamLevel"@)
            } else {
                match team_row(rows@, level, 0) {
                    None => r is Err && is_rule(r->Err_0, "InvalidTeamLevel"@),
                    Some(k) => match (req.number_of("OptionIndex"@, 0), req.number_of("BonusOptionIndex"@, 0)) {
                        (Some(o), Some(b)) => if o != rows@[k].option || b != rows@[k].bonus {
                            r is Err && is_rule(r->Err_0, "InvalidOption"@)
                        } else {
                            r == Ok::<(i64, i64, i64), ServerError>((level, o, b))
                        },
                        (None, _) => r is Err && is_rule(r->Err_0, "InvalidValue"@),
                        (Some(o), None) => if o != rows@[k].option {
                            r is Err && is_rule(r->Err_0, "InvalidOption"@)
                        } else {
                            r is Err && is_rule(r->Err_0, "InvalidValue"@)
                        },
                    },
                }
            },
        },
{
    let level = req.number("BuffTeamLevel", 0)?;
    if level > team_level {
        return Err(rule("NotEnoughTeamLevel"));
    }
    let n = rows.len();
    let mut found: Option<usize> = None;
    let mut k: usize = 0;
    while k < n && found.is_none()
        invariant
            n == rows@.len(),
            k <= n,
            found is None ==> team_row(rows@, level, 0) == team_row(rows@, level, k as int),
            found matches Some(j) ==> team_row(rows@, level, 0) == Some(j as int) && j < n,
        decreases n - k,
    {
        if rows[k].level == level {
            found = Some(k);
        }
        k = k + 1;
    }
    let k = match found {
        None => { return Err(rule("InvalidTeamLevel")); },
        Some(k) => k,
    };
    let o = req.number("OptionIndex", 0)?;
    if o != rows[k].option {
        return Err(rule("InvalidOption"));
    }
    let b = req.number("BonusOptionIndex", 0)?;
    if b != rows[k].bonus {
        return Err(rule("InvalidOption"));
    }
    Ok((level, o, b))
}

/// A team buff option row: the price of each reinforcement (none for an entry that is not
/// an integer) and the currency code it is paid in.
pub struct TeamBuffOption {
    pub prices: Vec<Option<i64>>,
    pub price_type: i64,
}

/// The price of the next reinforcement after `current`.
pub open spec fn next_price(o: TeamBuffOption, current: i64) -> Option<i64> {
    let i = (current as usize) as int;
    if 0 <= i < o.prices@.len() { o.prices@[i] } else { None }
}

/// Checks a reinforcement of a team buff reinforced `current` times: the request names
/// the next one (`Reinforce`; `InvalidReinforce`), there is a next one
/// (`MaxReinforce`), its currency is known, and the request names its price and currency
/// (`ReinforcePrice`, `ReinforcePriceType`; `InvalidPrice`). Gives the new count, the
/// price and the currency.
pub fn team_reinforce(req: &Request, current: i64, o: &TeamBuffOption) -> (r: Result<(i64, i64, &'static str), ServerError>)
    requires
        current < i64::MAX,
    ensures
        match req.number_of("Reinforce"@, 0) {
            None => r is Err && is_rule(r->Err_0, "InvalidValue"@),
            Some(t) => if t != current + 1 {
                r is Err && is_rule(r->Err_0, "InvalidReinforce"@)
            } else {
                match next_price(*o, current) {
                    None => r is Err && is_rule(r->Err_0, "MaxReinforce"@),
                    Some(cost) => match crate::extensions::currency_code(o.price_type as int) {
                        None => r is Err && is_rule(r->Err_0, "InvalidCurrencyType"@),
                        Some(kind) => match req.number_of("ReinforcePrice"@, -1i64) {
                            None => r is Err && is_rule(r->Err_0, "InvalidValue"@),
                            Some(p) => if p != cost || req.text_of("ReinforcePriceType"@) != kind {
                                r is Err && is_rule(r->Err_0, "InvalidPrice"@)
                            } else {
                                r is Ok && r->Ok_0.0 == t && r->Ok_0.1 == cost && r->Ok_0.2@ == kind
                            },
                        },
                    },
                }
            },
        },
{
    let t = req.number("Reinforce", 0)?;
    if t != current + 1 {
        return Err(rule("InvalidReinforce"));
    }
    let i = #[verifier::truncate] (current as usize);
    let cost = if i < o.prices.len() {
        match o.prices[i] {
            Some(c) => c,
            None => { return Err(rule("MaxReinforce")); },
        }
    } else {
        return Err(rule("MaxReinforce"));
    };
    let kind = crate::extensions::currency_type(o.price_type)?;
    let p = req.number("ReinforcePrice", -1)?;
    if p != cost || !str_eq(req.text("ReinforcePriceType"), kind) {
        return Err(rule("InvalidPrice"));
    }
    Ok((t, cost, kind))
}

} // verus!
