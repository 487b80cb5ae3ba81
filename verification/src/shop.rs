//! Table-priced shops: the rows on sale, restocking, the purchase period a purchase counts
//! in, and what a purchase costs.
use vstd::prelude::*;
use crate::error::{rule, is_rule, ServerError};
use crate::extensions::{kind, cost_kind};
use crate::text::{int_text, push_int};
use chrono::Datelike;

verus! {

/// A shop of the shop table.
pub struct ShopData {
    pub index: i64,
    pub buy_cost_type: i64,
    /// Rows drawn at each restock; 0 for a shop that sells its whole list.
    pub max_stock: i64,
    pub restock_second: i64,
    pub restock_gem: i64,
    pub event_only: i64,
    /// `UseGroupIndexForLevel`: a guild shop shows the rows of the guild's level and below.
    pub use_group_for_level: bool,
}

/// A row of the shop item table.
pub struct ShopRow {
    pub index: i64,
    pub shop_index: i64,
    pub item: i64,
    pub condition: i64,
    pub cost_type_for_item: i64,
    pub daily_reset: bool,
    pub weekly_reset: bool,
    /// The days of the month (non-negative integer entries of `MonthlyResetDate`) on
    /// which purchases reset.
    pub monthly_days: Vec<i64>,
    pub purchasable_count: i64,
    pub target_price: i64,
    pub count: i64,
    pub star: i64,
    pub group_index: i64,
}

/// The currency code a row is paid in: its own when it has one, else the shop's.
pub open spec fn row_cost(shop: ShopData, row: ShopRow) -> i64 {
    if row.cost_type_for_item > 0 { row.cost_type_for_item } else { shop.buy_cost_type }
}

/// True when a row can be sold: its currency is known, it names an item, it has no
/// condition, and its item is a reward of kind `Item` or `Equip` (`rewardable`).
pub open spec fn purchasable(shop: ShopData, row: ShopRow, rewardable: bool) -> bool {
    &&& cost_kind(row_cost(shop, row) as int) is Some
    &&& row.item > 0
    &&& row.condition == 0
    &&& rewardable
}

fn is_purchasable(shop: &ShopData, row: &ShopRow, rewardable: bool) -> (r: bool)
    ensures
        r == purchasable(*shop, *row, rewardable),
{
    let cost = if row.cost_type_for_item > 0 { row.cost_type_for_item } else { shop.buy_cost_type };
    kind(cost).is_ok() && row.item > 0 && row.condition == 0 && rewardable
}

/// The positions of the rows of shop `shop_index` that can be sold, in table order.
pub open spec fn shop_rows(shop: ShopData, rows: Seq<ShopRow>, rewardable: Seq<bool>, shop_index: i64, n: int) -> Seq<usize>
    decreases n,
{
    if n <= 0 {
        Seq::empty()
    } else {
        let front = shop_rows(shop, rows, rewardable, shop_index, n - 1);
        if rows[n - 1].shop_index == shop_index && purchasable(shop, rows[n - 1], rewardable[n - 1]) {
            front.push((n - 1) as usize)
        } else {
            front
        }
    }
}

proof fn lemma_shop_rows_bounds(shop: ShopData, rows: Seq<ShopRow>, rewardable: Seq<bool>, shop_index: i64, n: int)
    requires
        0 <= n <= rows.len(),
        n <= usize::MAX,
    ensures
        shop_rows(shop, rows, rewardable, shop_index, n).len() <= n,
        forall|k: int| 0 <= k < shop_rows(shop, rows, rewardable, shop_index, n).len() ==>
            #[trigger] shop_rows(shop, rows, rewardable, shop_index, n)[k] < n,
        forall|a: int, b: int| 0 <= a < b < shop_rows(shop, rows, rewardable, shop_index, n).len() ==>
            shop_rows(shop, rows, rewardable, shop_index, n)[a] < shop_rows(shop, rows, rewardable, shop_index, n)[b],
    decreases n,
{
    if n > 0 {
        lemma_shop_rows_bounds(shop, rows, rewardable, shop_index, n - 1);
        let front = shop_rows(shop, rows, rewardable, shop_index, n - 1);
        let cur = shop_rows(shop, rows, rewardable, shop_index, n);
        if rows[n - 1].shop_index == shop_index && purchasable(shop, rows[n - 1], rewardable[n - 1]) {
            assert(cur == front.push((n - 1) as usize));
            assert forall|k: int| 0 <= k < cur.len() implies #[trigger] cur[k] < n by {
                if k < front.len() {
                    assert(cur[k] == front[k]);
                }
            }
            assert forall|a: int, b: int| 0 <= a < b < cur.len() implies cur[a] < cur[b] by {
                assert(cur[a] == front[a]);
                if b < front.len() {
                    assert(cur[b] == front[b]);
                }
            }
        } else {
            assert(cur == front);
        }
    }
}

fn collect_shop_rows(shop: &ShopData, rows: &Vec<ShopRow>, rewardable: &Vec<bool>, shop_index: i64) -> (r: Vec<usize>)
    requires
        rewardable@.len() == rows@.len(),
    ensures
        r@ == shop_rows(*shop, rows@, rewardable@, shop_index, rows@.len() as int),
{
    let mut out: Vec<usize> = Vec::new();
    let mut i: usize = 0;
    while i < rows.len()
        invariant
            rewardable@.len() == rows@.len(),
            i <= rows@.len(),
            out@ == shop_rows(*shop, rows@, rewardable@, shop_index, i as int),
        decreases rows@.len() - i,
    {
        if rows[i].shop_index == shop_index && is_purchasable(shop, &rows[i], rewardable[i]) {
            out.push(i);
        }
        i = i + 1;
    }
    out
}

/// True when positions `ps` are ordered by the rows' `index`, and by position among rows
/// of equal `index`.
pub open spec fn by_row_index(rows: Seq<ShopRow>, ps: Seq<usize>) -> bool {
    forall|a: int, b: int| 0 <= a < b < ps.len() ==>
        rows[ps[a] as int].index < rows[ps[b] as int].index
        || (rows[ps[a] as int].index == rows[ps[b] as int].index && ps[a] < ps[b])
}

/// Sorts positions by the rows' `index`, keeping the order of rows with equal `index`.
fn sort_by_row_index(rows: &Vec<ShopRow>, ps: &Vec<usize>) -> (r: Vec<usize>)
    requires
        forall|k: int| 0 <= k < ps@.len() ==> #[trigger] ps@[k] < rows@.len(),
        forall|a: int, b: int| 0 <= a < b < ps@.len() ==> ps@[a] < ps@[b],
    ensures
        by_row_index(rows@, r@),
        forall|p: usize| r@.contains(p) <==> ps@.contains(p),
        r@.len() == ps@.len(),
        forall|k: int| 0 <= k < r@.len() ==> #[trigger] r@[k] < rows@.len(),
{
    let mut out: Vec<usize> = Vec::new();
    let mut i: usize = 0;
    while i < ps.len()
        invariant
            i <= ps@.len(),
            forall|k: int| 0 <= k < ps@.len() ==> #[trigger] ps@[k] < rows@.len(),
            forall|a: int, b: int| 0 <= a < b < ps@.len() ==> ps@[a] < ps@[b],
            out@.len() == i,
            by_row_index(rows@, out@),
            forall|p: usize| out@.contains(p) <==> ps@.take(i as int).contains(p),
            forall|k: int| 0 <= k < out@.len() ==> (#[trigger] out@[k] < rows@.len() && (i < ps@.len() ==> out@[k] < ps@[i as int])),
        decreases ps@.len() - i,
    {
        let p = ps[i];
        let key = rows[p].index;
        let mut j: usize = 0;
        while j < out.len() && rows[out[j]].index <= key
            invariant
                j <= out@.len(),
                forall|k: int| 0 <= k < out@.len() ==> #[trigger] out@[k] < rows@.len(),
                forall|k: int| 0 <= k < j ==> rows@[out@[k] as int].index <= key,
            decreases out@.len() - j,
        {
            j = j + 1;
        }
        let ghost before = out@;
        proof {
            if j < before.len() {
                assert(rows@[before[j as int] as int].index > key);
            }
        }
        out.insert(j, p);
        proof {
            let after = out@;
            assert(after == before.insert(j as int, p));
            assert forall|a: int, b: int| 0 <= a < b < after.len() implies
                rows@[after[a] as int].index < rows@[after[b] as int].index
                || (rows@[after[a] as int].index == rows@[after[b] as int].index && after[a] < after[b]) by {
                if b < j {
                    assert(after[a] == before[a] && after[b] == before[b]);
                } else if b == j {
                    assert(after[a] == before[a]);
                    assert(before[a] < p);
                } else if a < j {
                    assert(after[a] == before[a] && after[b] == before[b - 1]);
                    assert(rows@[before[b - 1] as int].index >= rows@[before[j as int] as int].index) by {
                        if b - 1 > j {
                            assert(rows@[before[j as int] as int].index <= rows@[before[b - 1] as int].index
                                || rows@[before[j as int] as int].index == rows@[before[b - 1] as int].index);
                        }
                    }
                } else if a == j {
                    assert(after[b] == before[b - 1]);
                    assert(rows@[before[b - 1] as int].index >= rows@[before[j as int] as int].index) by {
                        if b - 1 > j {
                            assert(rows@[before[j as int] as int].index <= rows@[before[b - 1] as int].index
                                || rows@[before[j as int] as int].index == rows@[before[b - 1] as int].index);
                        }
                    }
                } else {
                    assert(after[a] == before[a - 1] && after[b] == before[b - 1]);
                }
            }
            let t0 = ps@.take(i as int);
            let t1 = ps@.take(i + 1);
            assert(t1 =~= t0.push(p));
            assert forall|q: usize| after.contains(q) <==> t1.contains(q) by {
                if after.contains(q) {
                    let k = choose|k: int| 0 <= k < after.len() && after[k] == q;
                    if k < j {
                        assert(before[k] == q);
                        assert(before.contains(q));
                        assert(t0.contains(q));
                        let m = choose|m: int| 0 <= m < t0.len() && t0[m] == q;
                        assert(t1[m] == q);
                    } else if k > j {
                        assert(before[k - 1] == q);
                        assert(before.contains(q));
                        assert(t0.contains(q));
                        let m = choose|m: int| 0 <= m < t0.len() && t0[m] == q;
                        assert(t1[m] == q);
                    } else {
                        assert(t1[i as int] == q);
                    }
                }
                if t1.contains(q) {
                    let m = choose|m: int| 0 <= m < t1.len() && t1[m] == q;
                    if m < i {
                        assert(t0[m] == q);
                        assert(before.contains(q));
                        let k = choose|k: int| 0 <= k < before.len() && before[k] == q;
                        if k < j {
                            assert(after[k] == q);
                        } else {
                            assert(after[k + 1] == q);
                        }
                    } else {
                        assert(after[j as int] == q);
                    }
                }
            }
            assert forall|k: int| 0 <= k < after.len() implies (#[trigger] after[k] < rows@.len() && (i + 1 < ps@.len() ==> after[k] < ps@[i + 1])) by {
                if k < j {
                    assert(after[k] == before[k]);
                } else if k > j {
                    assert(after[k] == before[k - 1]);
                }
            }
        }
        i = i + 1;
    }
    proof {
        assert(ps@.take(ps@.len() as int) =~= ps@);
    }
    out
}

} // verus!

verus! {

/// A shop's saved stock: its revision, when it restocks (0 for never) and how many times
/// the player restocked it.
pub struct StockState {
    pub revision: i64,
    pub restock_time: i64,
    pub restock_count: i64,
}

/// A row of a stock: the position of its table row, its number in the list and how many
/// of it can be bought.
pub struct StockEntry {
    pub row: usize,
    pub index: i64,
    pub purchasable_count: i64,
}

/// A new stock.
pub struct Restock {
    pub revision: i64,
    pub restock_time: i64,
    pub restock_count: i64,
    pub entries: Vec<StockEntry>,
}

/// True when the stock must be made anew: there is none, the player asks for it, or its
/// restock time has come.
pub open spec fn needs_restock(old: Option<StockState>, refresh: bool, now: int) -> bool {
    match old {
        None => true,
        Some(s) => refresh || (s.restock_time > 0 && s.restock_time <= now),
    }
}

/// The rows a restock draws from: those of the shop, or, for a shop that draws its stock
/// and has none of its own, those of the shared list (shop 0).
pub open spec fn stock_source(shop: ShopData, rows: Seq<ShopRow>, rewardable: Seq<bool>) -> Seq<usize> {
    let own = shop_rows(shop, rows, rewardable, shop.index, rows.len() as int);
    if shop.max_stock > 0 && own.len() == 0 {
        shop_rows(shop, rows, rewardable, 0, rows.len() as int)
    } else {
        own
    }
}

/// The number of rows a drawn stock holds.
pub open spec fn drawn_len(shop: ShopData, source: Seq<usize>) -> int {
    let cap = (shop.max_stock as usize) as int;
    if cap < source.len() { cap } else { source.len() as int }
}

/// True when `e` is a stock drawn from `source`: the first rows of some reordering of it,
/// numbered from 1, one of each for sale.
pub open spec fn drawn_stock(shop: ShopData, source: Seq<usize>, e: Seq<StockEntry>) -> bool {
    &&& e.len() == drawn_len(shop, source)
    &&& exists|order: Seq<usize>| #[trigger] order.to_multiset() == source.to_multiset()
            && order.len() == source.len()
            && forall|i: int| 0 <= i < e.len() ==> e[i].row == order[i]
    &&& forall|i: int| 0 <= i < e.len() ==> (#[trigger] e[i]).index == i + 1 && e[i].purchasable_count == 1
}

/// True when `e` is the whole list of `source`, ordered by the rows' `index`.
pub open spec fn listed_stock(rows: Seq<ShopRow>, source: Seq<usize>, e: Seq<StockEntry>) -> bool {
    &&& e.len() == source.len()
    &&& by_row_index(rows, e.map_values(|x: StockEntry| x.row))
    &&& forall|p: usize| e.map_values(|x: StockEntry| x.row).contains(p) <==> source.contains(p)
    &&& forall|i: int| 0 <= i < e.len() ==> #[trigger] e[i].index == rows[e[i].row as int].index
            && e[i].purchasable_count == rows[e[i].row as int].purchasable_count
}

/// Makes a shop's stock anew when it must be (none when the saved one stands): the next
/// revision, the next restock time, the restock count (counted only when the player asks),
/// and the rows: a random draw of `max_stock` rows for a shop that draws, else its whole
/// list by `index`.
pub fn restock(shop: &ShopData, rows: &Vec<ShopRow>, rewardable: &Vec<bool>, old: &Option<StockState>, refresh: bool, now: i64) -> (r: Option<Restock>)
    requires
        rewardable@.len() == rows@.len(),
        rows@.len() < i64::MAX,
        old matches Some(s) ==> s.revision < i64::MAX && s.restock_count < i64::MAX,
        shop.restock_second > 0 ==> now + shop.restock_second <= i64::MAX,
    ensures
        !needs_restock(*old, refresh, now as int) ==> r is None,
        needs_restock(*old, refresh, now as int) ==> {
            &&& r is Some
            &&& r->0.revision == (match *old { Some(s) => s.revision + 1, None => 1 })
            &&& r->0.restock_time == (if shop.restock_second > 0 { now + shop.restock_second } else { 0 })
            &&& r->0.restock_count == (if refresh { match *old { Some(s) => s.restock_count + 1, None => 1 } } else { 0 })
            &&& if shop.max_stock > 0 {
                drawn_stock(*shop, stock_source(*shop, rows@, rewardable@), r->0.entries@)
            } else {
                listed_stock(rows@, stock_source(*shop, rows@, rewardable@), r->0.entries@)
            }
        },
{
    let needs = match old {
        None => true,
        Some(s) => refresh || (s.restock_time > 0 && s.restock_time <= now),
    };
    if !needs {
        return None;
    }
    let revision = match old { Some(s) => s.revision + 1, None => 1 };
    let restock_time = if shop.restock_second > 0 { now + shop.restock_second } else { 0 };
    let restock_count = if refresh { match old { Some(s) => s.restock_count + 1, None => 1 } } else { 0 };
    let mut source = collect_shop_rows(shop, rows, rewardable, shop.index);
    if shop.max_stock > 0 && source.len() == 0 {
        source = collect_shop_rows(shop, rows, rewardable, 0);
    }
    let ghost src = source@;
    let nrows = rows.len();
    proof {
        lemma_shop_rows_bounds(*shop, rows@, rewardable@, shop.index, rows@.len() as int);
        lemma_shop_rows_bounds(*shop, rows@, rewardable@, 0, rows@.len() as int);
    }
    let mut entries: Vec<StockEntry> = Vec::new();
    if shop.max_stock > 0 {
        let mut order = source;
        crate::dice::shuffle(&mut order);
        proof {
            order@.to_multiset_ensures();
            src.to_multiset_ensures();
            assert(order@.len() == src.len());
        }
        let cap = #[verifier::truncate] (shop.max_stock as usize);
        let k = if cap < order.len() { cap } else { order.len() };
        let mut i: usize = 0;
        while i < k
            invariant
                k <= order@.len(),
                k < i64::MAX,
                i <= k,
                entries@.len() == i,
                forall|j: int| 0 <= j < i ==> #[trigger] entries@[j].row == order@[j]
                    && entries@[j].index == j + 1 && entries@[j].purchasable_count == 1,
            decreases k - i,
        {
            entries.push(StockEntry { row: order[i], index: (i + 1) as i64, purchasable_count: 1 });
            i = i + 1;
        }
        proof {
            assert(order@.to_multiset().len() == order@.len()) by {
                order@.to_multiset_ensures();
            }
            assert(src.to_multiset().len() == src.len()) by {
                src.to_multiset_ensures();
            }
            assert(order@.len() == src.len());
            assert(forall|j: int| 0 <= j < entries@.len() ==> entries@[j].row == order@[j]);
            assert(entries@.len() == drawn_len(*shop, src));
            assert forall|j: int| 0 <= j < entries@.len() implies (#[trigger] entries@[j]).index == j + 1 && entries@[j].purchasable_count == 1 by {
                assert(entries@[j].row == order@[j]);
            }
            assert(drawn_stock(*shop, src, entries@));
        }
    } else {
        let sorted = sort_by_row_index(rows, &source);
        let mut i: usize = 0;
        while i < sorted.len()
            invariant
                i <= sorted@.len(),
                forall|k: int| 0 <= k < sorted@.len() ==> #[trigger] sorted@[k] < rows@.len(),
                entries@.len() == i,
                forall|j: int| 0 <= j < i ==> #[trigger] entries@[j].row == sorted@[j]
                    && entries@[j].index == rows@[sorted@[j] as int].index
                    && entries@[j].purchasable_count == rows@[sorted@[j] as int].purchasable_count,
            decreases sorted@.len() - i,
        {
            let p = sorted[i];
            entries.push(StockEntry { row: p, index: rows[p].index, purchasable_count: rows[p].purchasable_count });
            i = i + 1;
        }
        proof {
            assert(entries@.map_values(|x: StockEntry| x.row) =~= sorted@);
            assert(listed_stock(rows@, src, entries@));
        }
    }
    proof {
        assert(src == stock_source(*shop, rows@, rewardable@));
    }
    Some(Restock { revision, restock_time, restock_count, entries })
}

} // verus!

verus! {

/// The times chrono can represent, with a margin of more than 62 days.
pub open spec fn calendar_time(t: int) -> bool {
    -8_000_000_000_000 <= t <= 8_000_000_000_000
}

/// What chrono writes for the UTC date of `t` with `%Y-%m-%d`.
pub uninterp spec fn ymd(t: int) -> Seq<char>;

/// chrono's ISO week of the UTC date of `t`: its year and week number.
pub uninterp spec fn iso_week(t: int) -> (int, int);

/// chrono's day of the month of the UTC date of `t`.
pub uninterp spec fn month_day(t: int) -> int;

/// Calls `chrono::DateTime::from_timestamp(t, 0)` and formats the date as `%Y-%m-%d`; the
/// text is named by `ymd`.
#[verifier::external_body]
fn ymd_text(t: i64) -> (r: String)
    requires
        calendar_time(t as int),
    ensures
        r@ == ymd(t as int),
{
    chrono::DateTime::from_timestamp(t, 0).unwrap_or_default().format("%Y-%m-%d").to_string()
}

/// Calls `chrono::Datelike::iso_week` on the date of `chrono::DateTime::from_timestamp(t,
/// 0)` and returns its `year()` and `week()`, named by `iso_week`.
#[verifier::external_body]
fn iso_week_of(t: i64) -> (r: (i64, i64))
    requires
        calendar_time(t as int),
    ensures
        (r.0 as int, r.1 as int) == iso_week(t as int),
{
    let w = chrono::DateTime::from_timestamp(t, 0).unwrap_or_default().iso_week();
    (w.year() as i64, w.week() as i64)
}

/// Calls `chrono::Datelike::day` on `chrono::DateTime::from_timestamp(t, 0)`: the day of
/// the month, from 1 to 31 as chrono documents, named by `month_day`.
#[verifier::external_body]
fn month_day_of(t: i64) -> (r: i64)
    requires
        calendar_time(t as int),
    ensures
        r as int == month_day(t as int),
        1 <= r <= 31,
{
    chrono::DateTime::from_timestamp(t, 0).unwrap_or_default().day() as i64
}

/// True when `days` lists day `d`.
pub open spec fn lists_day(days: Seq<i64>, d: int) -> bool {
    exists|j: int| 0 <= j < days.len() && days[j] == d
}

/// The number of days back, from `k` to 62, to the latest date whose day of the month is
/// a reset day.
pub open spec fn reset_offset(days: Seq<i64>, now: int, k: int) -> Option<int>
    decreases 63 - k,
{
    if k < 0 || k > 62 {
        None
    } else if lists_day(days, month_day(now - k * 86400)) {
        Some(k)
    } else {
        reset_offset(days, now, k + 1)
    }
}

/// The purchase period a purchase of `row` at `now` counts in: the stock revision for a
/// shop that draws its stock; else the day, the ISO week, or the month starting at the
/// latest reset day within 62 days; else one period for all time.
pub open spec fn period_label(row: ShopRow, now: int, revision: int, rotating: bool) -> Seq<char> {
    if rotating {
        "stock:"@ + int_text(revision)
    } else if row.daily_reset {
        "day:"@ + ymd(now)
    } else if row.weekly_reset {
        "week:"@ + int_text(iso_week(now).0) + ":"@ + int_text(iso_week(now).1)
    } else if row.monthly_days@.len() > 0 {
        match reset_offset(row.monthly_days@, now, 0) {
            Some(k) => "month:"@ + ymd(now - k * 86400),
            None => "all"@,
        }
    } else {
        "all"@
    }
}

fn holds_day(days: &Vec<i64>, d: i64) -> (r: bool)
    ensures
        r == lists_day(days@, d as int),
{
    let mut j: usize = 0;
    while j < days.len()
        invariant
            j <= days@.len(),
            forall|k: int| 0 <= k < j ==> days@[k] != d,
        decreases days@.len() - j,
    {
        if days[j] == d {
            return true;
        }
        j = j + 1;
    }
    false
}

/// Writes the purchase period of `row` at `now`.
pub fn shop_period(row: &ShopRow, now: i64, revision: i64, rotating: bool) -> (r: String)
    requires
        -7_000_000_000_000 <= now <= 7_000_000_000_000,
    ensures
        r@ == period_label(*row, now as int, revision as int, rotating),
{
    proof {
        reveal_strlit("stock:");
        reveal_strlit("day:");
        reveal_strlit("week:");
        reveal_strlit(":");
        reveal_strlit("month:");
        reveal_strlit("all");
    }
    if rotating {
        let mut out = String::from_str("stock:");
        push_int(&mut out, revision);
        return out;
    }
    if row.daily_reset {
        let mut out = String::from_str("day:");
        let d = ymd_text(now);
        out.append(d.as_str());
        return out;
    }
    if row.weekly_reset {
        let (y, w) = iso_week_of(now);
        let mut out = String::from_str("week:");
        push_int(&mut out, y);
        out.append(":");
        push_int(&mut out, w);
        return out;
    }
    if row.monthly_days.len() > 0 {
        let mut k: i64 = 0;
        while k <= 62
            invariant
                0 <= k <= 63,
                -7_000_000_000_000 <= now <= 7_000_000_000_000,
                reset_offset(row.monthly_days@, now as int, 0) == reset_offset(row.monthly_days@, now as int, k as int),
                row.monthly_days@.len() > 0,
                !rotating && !row.daily_reset && !row.weekly_reset,
            decreases 63 - k,
        {
            let t = now - k * 86400;
            let d = month_day_of(t);
            if holds_day(&row.monthly_days, d) {
                let mut out = String::from_str("month:");
                let text = ymd_text(t);
                out.append(text.as_str());
                return out;
            }
            k = k + 1;
        }
    }
    String::from_str("all")
}

} // verus!

verus! {

/// Refuses an unknown shop (`NoShopData`) and a shop open only during events
/// (`ContentsDisabled`).
pub fn shop_open_check(shop: &Option<ShopData>) -> (r: Result<(), ServerError>)
    ensures
        match *shop {
            None => r is Err && is_rule(r->Err_0, "NoShopData"@),
            Some(s) => if s.event_only != 0 { r is Err && is_rule(r->Err_0, "ContentsDisabled"@) } else { r is Ok },
        },
{
    match shop {
        None => Err(rule("NoShopData")),
        Some(s) => if s.event_only != 0 { Err(rule("ContentsDisabled")) } else { Ok(()) },
    }
}

/// Refuses a purchase from a drawn stock that is missing or whose restock time has come
/// (`InvalidShopItemListIndex`): the list the player saw is gone.
pub fn stock_current_check(restock_time: Option<i64>, now: i64) -> (r: Result<(), ServerError>)
    ensures
        r is Ok <==> (match restock_time { None => false, Some(t) => !(t > 0 && t <= now) }),
        r is Err ==> is_rule(r->Err_0, "InvalidShopItemListIndex"@),
{
    match restock_time {
        None => Err(rule("InvalidShopItemListIndex")),
        Some(t) => if t > 0 && t <= now { Err(rule("InvalidShopItemListIndex")) } else { Ok(()) },
    }
}

/// Refuses to restock a shop that does not draw its stock, never restocks, or has no
/// restock price (`CannotRestock`).
pub fn restock_check(shop: &ShopData) -> (r: Result<(), ServerError>)
    ensures
        r is Ok <==> !(shop.max_stock == 0 || shop.restock_second <= 0 || shop.restock_gem <= 0),
        r is Err ==> is_rule(r->Err_0, "CannotRestock"@),
{
    if shop.max_stock == 0 || shop.restock_second <= 0 || shop.restock_gem <= 0 {
        Err(rule("CannotRestock"))
    } else {
        Ok(())
    }
}

/// True when a stock row is shown: a guild shop that goes by level shows the rows of the
/// guild's level and below.
pub open spec fn shown(shop: ShopData, guild_level: Option<i64>, row: ShopRow) -> bool {
    match guild_level {
        Some(l) => !shop.use_group_for_level || row.group_index <= l,
        None => true,
    }
}

/// The first shown row of the stock numbered `index`.
pub open spec fn stock_row(shop: ShopData, stock: Seq<ShopRow>, guild_level: Option<i64>, index: i64, k: int) -> Option<int>
    decreases stock.len() - k,
{
    if k < 0 || k >= stock.len() {
        None
    } else if shown(shop, guild_level, stock[k]) && stock[k].index == index {
        Some(k)
    } else {
        stock_row(shop, stock, guild_level, index, k + 1)
    }
}

/// Finds the row of the stock that a purchase names, refused with
/// `ShopItemDataNotFound` when no shown row has that number.
pub fn pick_stock_row(shop: &ShopData, stock: &Vec<ShopRow>, guild_level: Option<i64>, index: i64) -> (r: Result<usize, ServerError>)
    ensures
        match stock_row(*shop, stock@, guild_level, index, 0) {
            Some(k) => r is Ok && r->Ok_0 as int == k,
            None => r is Err && is_rule(r->Err_0, "ShopItemDataNotFound"@),
        },
{
    let mut k: usize = 0;
    while k < stock.len()
        invariant
            k <= stock@.len(),
            stock_row(*shop, stock@, guild_level, index, 0) == stock_row(*shop, stock@, guild_level, index, k as int),
        decreases stock@.len() - k,
    {
        let show = match guild_level {
            Some(l) => !shop.use_group_for_level || stock[k].group_index <= l,
            None => true,
        };
        if show && stock[k].index == index {
            return Ok(k);
        }
        k = k + 1;
    }
    Err(rule("ShopItemDataNotFound"))
}

/// The number of items bought at once (`ShopItemPurchaseCount`, 1 to 1000); a drawn stock
/// sells one at a time (`InvalidValue` otherwise).
pub fn purchase_count(req: &crate::forms::Request, rotating: bool) -> (r: Result<i64, ServerError>)
    ensures
        match req.number_of("ShopItemPurchaseCount"@, 1) {
            None => r is Err && is_rule(r->Err_0, "InvalidValue"@),
            Some(v) => if !(1 <= v <= 1000) {
                r is Err && is_rule(r->Err_0, "InvalidItemCount"@)
            } else if rotating && v != 1 {
                r is Err && is_rule(r->Err_0, "InvalidValue"@)
            } else {
                r == Ok::<i64, ServerError>(v)
            },
        },
{
    let count = crate::inventory::positive(req, "ShopItemPurchaseCount")? as i64;
    if rotating && count != 1 {
        return Err(rule("InvalidValue"));
    }
    Ok(count)
}

/// Refuses a purchase that would take the bought count over the row's limit (`SoldOut`);
/// a limit of 0 or less means none.
pub fn sold_out_check(max: i64, old: i64, count: i64) -> (r: Result<(), ServerError>)
    requires
        i64::MIN <= old + count <= i64::MAX,
    ensures
        r is Ok <==> !(max > 0 && old + count > max),
        r is Err ==> is_rule(r->Err_0, "SoldOut"@),
{
    if max > 0 && old + count > max {
        Err(rule("SoldOut"))
    } else {
        Ok(())
    }
}

/// An item's prices in each currency (`BuyGold`, `BuyGem`, ...).
pub struct ItemPrices {
    pub gold: i64,
    pub gem: i64,
    pub pvp_coin: i64,
    pub guild_point: i64,
    pub royal_point: i64,
    pub mileage: i64,
    pub friendship_point: i64,
    pub raid_point: i64,
    pub guild_arena_point: i64,
}

/// The item's price in the currency of cost code `cost`.
pub open spec fn price_in(meta: ItemPrices, cost: int) -> i64 {
    if cost == 1 { meta.gold }
    else if cost == 2 { meta.gem }
    else if cost == 3 { meta.pvp_coin }
    else if cost == 4 { meta.guild_point }
    else if cost == 5 { meta.royal_point }
    else if cost == 6 { meta.mileage }
    else if cost == 7 { meta.friendship_point }
    else if cost == 8 { meta.raid_point }
    else if cost == 17 { meta.guild_arena_point }
    else { 0 }
}

/// The list price of a row before any hero discount: its target price, else the item's
/// price in the row's currency times the row's count; the price of equipment without a
/// target price is scaled by the factor of its star (in thousandths, rounded toward zero).
pub open spec fn list_price(shop: ShopData, row: ShopRow, meta: ItemPrices, is_equip: bool, star_factor: Option<i64>) -> int {
    let base = if row.target_price > 0 { row.target_price as int } else { price_in(meta, row_cost(shop, row) as int) * row.count };
    if row.target_price == 0 && is_equip && star_factor is Some {
        crate::live::trunc_div(base * star_factor->0, 1000)
    } else {
        base
    }
}

/// True when computing the list price stays within `i64`.
pub open spec fn list_price_fits(shop: ShopData, row: ShopRow, meta: ItemPrices, star_factor: Option<i64>) -> bool {
    let base = if row.target_price > 0 { row.target_price as int } else { price_in(meta, row_cost(shop, row) as int) * row.count };
    &&& i64::MIN <= price_in(meta, row_cost(shop, row) as int) * row.count <= i64::MAX
    &&& star_factor matches Some(f) ==> i64::MIN <= base * f <= i64::MAX
}

/// The item's `Buy<currency>` price for a currency name.
pub open spec fn buy_price(meta: ItemPrices, currency: Seq<char>) -> i64 {
    if currency == "Gold"@ { meta.gold }
    else if currency == "Gem"@ { meta.gem }
    else if currency == "PvpCoin"@ { meta.pvp_coin }
    else if currency == "GuildPoint"@ { meta.guild_point }
    else if currency == "RoyalPoint"@ { meta.royal_point }
    else if currency == "Mileage"@ { meta.mileage }
    else if currency == "FriendshipPoint"@ { meta.friendship_point }
    else if currency == "RaidPoint"@ { meta.raid_point }
    else if currency == "GuildArenaPoint"@ { meta.guild_arena_point }
    else { 0 }
}

/// A purchase is priced in the currency it is paid in: without a target price, the list
/// price of a row (not scaled as equipment) is the item's `Buy<currency>` price, for the
/// currency its cost code names, times the row's count.
pub proof fn lemma_priced_in_named_currency(shop: ShopData, row: ShopRow, meta: ItemPrices, star_factor: Option<i64>)
    requires
        row.target_price == 0,
        cost_kind(row_cost(shop, row) as int) is Some,
    ensures
        list_price(shop, row, meta, false, star_factor)
            == buy_price(meta, cost_kind(row_cost(shop, row) as int)->0) * row.count,
{
    reveal_strlit("Gold");
    reveal_strlit("Gem");
    reveal_strlit("PvpCoin");
    reveal_strlit("GuildPoint");
    reveal_strlit("RoyalPoint");
    reveal_strlit("Mileage");
    reveal_strlit("FriendshipPoint");
    reveal_strlit("RaidPoint");
    reveal_strlit("GuildArenaPoint");
    let k = cost_kind(row_cost(shop, row) as int)->0;
    assert("Gold"@.len() == 4 && "Gold"@[0] == 'G' && "Gold"@[1] == 'o' && "Gold"@[2] == 'l');
    assert("Gem"@.len() == 3 && "Gem"@[0] == 'G' && "Gem"@[1] == 'e' && "Gem"@[2] == 'm');
    assert("PvpCoin"@.len() == 7 && "PvpCoin"@[0] == 'P' && "PvpCoin"@[1] == 'v' && "PvpCoin"@[2] == 'p');
    assert("GuildPoint"@.len() == 10 && "GuildPoint"@[0] == 'G' && "GuildPoint"@[1] == 'u' && "GuildPoint"@[2] == 'i');
    assert("RoyalPoint"@.len() == 10 && "RoyalPoint"@[0] == 'R' && "RoyalPoint"@[1] == 'o' && "RoyalPoint"@[2] == 'y');
    assert("Mileage"@.len() == 7 && "Mileage"@[0] == 'M' && "Mileage"@[1] == 'i' && "Mileage"@[2] == 'l');
    assert("FriendshipPoint"@.len() == 15 && "FriendshipPoint"@[0] == 'F' && "FriendshipPoint"@[1] == 'r' && "FriendshipPoint"@[2] == 'i');
    assert("RaidPoint"@.len() == 9 && "RaidPoint"@[0] == 'R' && "RaidPoint"@[1] == 'a' && "RaidPoint"@[2] == 'i');
    assert("GuildArenaPoint"@.len() == 15 && "GuildArenaPoint"@[0] == 'G' && "GuildArenaPoint"@[1] == 'u' && "GuildArenaPoint"@[2] == 'i');
    assert(k == "Gold"@ || k == "Gem"@ || k == "PvpCoin"@ || k == "GuildPoint"@ || k == "RoyalPoint"@
        || k == "Mileage"@ || k == "FriendshipPoint"@ || k == "RaidPoint"@ || k == "GuildArenaPoint"@);
}

fn price_of(meta: &ItemPrices, cost: i64) -> (r: i64)
    ensures
        r == price_in(*meta, cost as int),
{
    if cost == 1 { meta.gold }
    else if cost == 2 { meta.gem }
    else if cost == 3 { meta.pvp_coin }
    else if cost == 4 { meta.guild_point }
    else if cost == 5 { meta.royal_point }
    else if cost == 6 { meta.mileage }
    else if cost == 7 { meta.friendship_point }
    else if cost == 8 { meta.raid_point }
    else if cost == 17 { meta.guild_arena_point }
    else { 0 }
}

/// The currency and list price of a purchase. Refused with `ItemDataNotFound` when the
/// item table lacks the row's item, with `InvalidCost` when the row's currency is unknown
/// or its price is not positive.
pub fn shop_price(shop: &ShopData, row: &ShopRow, meta: &Option<ItemPrices>, is_equip: bool, star_factor: Option<i64>) -> (r: Result<(&'static str, i64), ServerError>)
    requires
        *meta matches Some(m) ==> list_price_fits(*shop, *row, m, star_factor),
    ensures
        match *meta {
            None => r is Err && is_rule(r->Err_0, "ItemDataNotFound"@),
            Some(m) => match cost_kind(row_cost(*shop, *row) as int) {
                None => r is Err && is_rule(r->Err_0, "InvalidCost"@),
                Some(k) => if list_price(*shop, *row, m, is_equip, star_factor) <= 0 {
                    r is Err && is_rule(r->Err_0, "InvalidCost"@)
                } else {
                    r is Ok && r->Ok_0.0@ == k && r->Ok_0.1 == list_price(*shop, *row, m, is_equip, star_factor)
                },
            },
        },
{
    let m = match meta {
        None => { return Err(rule("ItemDataNotFound")); },
        Some(m) => m,
    };
    let cost = if row.cost_type_for_item > 0 { row.cost_type_for_item } else { shop.buy_cost_type };
    let k = kind(cost)?;
    let mut price = if row.target_price > 0 { row.target_price } else { price_of(m, cost) * row.count };
    if row.target_price == 0 && is_equip {
        match star_factor {
            Some(f) => {
                let scaled = price * f;
                price = scaled / 1000;
                proof {
                    assert(price == crate::live::trunc_div(scaled as int, 1000));
                }
            },
            None => {},
        }
    }
    if price <= 0 {
        return Err(rule("InvalidCost"));
    }
    Ok((k, price))
}

/// The total cost of buying `count` at `price` (`InvalidCost` beyond `i64`) and the
/// number of items given (`InvalidValue` beyond `i32`).
pub fn purchase_totals(price: i64, row_count: i64, count: i64) -> (r: Result<(i64, i32), ServerError>)
    ensures
        if !(i64::MIN <= price * count <= i64::MAX) {
            r is Err && is_rule(r->Err_0, "InvalidCost"@)
        } else if !(i32::MIN <= row_count * count <= i32::MAX) {
            r is Err && is_rule(r->Err_0, "InvalidValue"@)
        } else {
            r == Ok::<(i64, i32), ServerError>(((price * count) as i64, (row_count * count) as i32))
        },
{
    let cost = match price.checked_mul(count) {
        Some(c) => c,
        None => { return Err(rule("InvalidCost")); },
    };
    let amount = match row_count.checked_mul(count) {
        Some(a) => a,
        None => { return Err(rule("InvalidValue")); },
    };
    if amount < i32::MIN as i64 || amount > i32::MAX as i64 {
        return Err(rule("InvalidValue"));
    }
    Ok((cost, amount as i32))
}

} // verus!
