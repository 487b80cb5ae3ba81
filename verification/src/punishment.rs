//! Punishment runes: their storage, the gauge that ingredient runes fill to craft one, the
//! materials a craft consumes, the values it rolls and what breaking one gives back.
use vstd::prelude::*;
use crate::error::{rule, is_rule, ServerError};
use crate::inventory::count_for;
use crate::soul::{ascending, insert_sorted};

verus! {

/// Extends the punishment rune storage once: the gems offered must be the price and the
/// storage must not be fully extended (`InvalidPrice`). Gives the new extension count.
pub fn punishment_extend(req_gem: i64, price: i64, extend: i64, max_extend: i64) -> (r: Result<i64, ServerError>)
    ensures
        req_gem != price || extend >= max_extend ==> r is Err && is_rule(r->Err_0, "InvalidPrice"@),
        !(req_gem != price || extend >= max_extend) ==> r == Ok::<i64, ServerError>((extend + 1) as i64),
{
    if req_gem != price || extend >= max_extend {
        return Err(rule("InvalidPrice"));
    }
    Ok(extend + 1)
}

/// How many punishment runes the storage holds: the base count and `size` more for each
/// extension.
pub open spec fn punishment_room(base: int, extend: int, size: int) -> int {
    base + extend * size
}

/// Refuses a craft when the player already holds as many punishment runes as the storage
/// takes (`EquipItemFull`).
pub fn punishment_capacity(owned: i64, base: i64, extend: i64, size: i64) -> (r: Result<(), ServerError>)
    ensures
        owned >= punishment_room(base as int, extend as int, size as int) ==> r is Err && is_rule(r->Err_0, "EquipItemFull"@),
        owned < punishment_room(base as int, extend as int, size as int) ==> r is Ok,
{
    proof {
        assert(-0x4000_0000_0000_0000_0000_0000_0000_0000 <= (extend as int) * (size as int) <= 0x4000_0000_0000_0000_0000_0000_0000_0000) by (nonlinear_arith)
            requires i64::MIN <= extend <= i64::MAX, i64::MIN <= size <= i64::MAX;
    }
    let room = base as i128 + (extend as i128) * (size as i128);
    if owned as i128 >= room {
        return Err(rule("EquipItemFull"));
    }
    Ok(())
}

/// True when `tags` holds the text `t`.
pub open spec fn has_tag(tags: Seq<String>, t: Seq<char>) -> bool {
    exists|k: int| 0 <= k < tags.len() && #[trigger] tags[k]@ == t
}

/// The gauge one ingredient rune fills, looking at the first `n` gauge tags: the largest
/// gauge among the tags the rune carries (a tag without a gauge counts for nothing), none
/// when it carries none of them.
pub open spec fn rune_gauge_of(rune_tags: Seq<String>, tags: Seq<Seq<char>>, gauges: Seq<i64>, n: int) -> Option<i64>
    decreases n,
{
    if n <= 0 {
        None
    } else {
        let before = rune_gauge_of(rune_tags, tags, gauges, n - 1);
        if n - 1 < gauges.len() && has_tag(rune_tags, tags[n - 1]) {
            match before {
                Some(g) => if gauges[n - 1] > g { Some(gauges[n - 1]) } else { Some(g) },
                None => Some(gauges[n - 1]),
            }
        } else {
            before
        }
    }
}

fn carries(rune_tags: &Vec<String>, t: &String) -> (r: bool)
    ensures
        r == has_tag(rune_tags@, t@),
{
    let mut k: usize = 0;
    while k < rune_tags.len()
        invariant
            k <= rune_tags@.len(),
            forall|j: int| 0 <= j < k ==> rune_tags@[j]@ != t@,
        decreases rune_tags@.len() - k,
    {
        if crate::text::str_eq(rune_tags[k].as_str(), t.as_str()) {
            proof {
                assert(rune_tags@[k as int]@ == t@);
            }
            return true;
        }
        k = k + 1;
    }
    false
}

/// The gauge an ingredient rune fills; see `rune_gauge_of`.
pub fn rune_gauge(rune_tags: &Vec<String>, tags: &Vec<String>, gauges: &Vec<i64>) -> (r: Option<i64>)
    ensures
        r == rune_gauge_of(rune_tags@, tags@.map_values(|s: String| s@), gauges@, tags@.len() as int),
{
    let ghost ts = tags@.map_values(|s: String| s@);
    let mut best: Option<i64> = None;
    let mut i: usize = 0;
    while i < tags.len()
        invariant
            i <= tags@.len(),
            ts == tags@.map_values(|s: String| s@),
            best == rune_gauge_of(rune_tags@, ts, gauges@, i as int),
        decreases tags@.len() - i,
    {
        if i < gauges.len() && carries(rune_tags, &tags[i]) {
            let g = gauges[i];
            best = match best {
                Some(b) => if g > b { Some(g) } else { Some(b) },
                None => Some(g),
            };
        }
        i = i + 1;
    }
    best
}

/// Why the ingredients of a craft are refused, looking at the first `n`: an ingredient
/// that is no rune (`ItemDataNotFound`; `runes` holds each one's tags) or that fills no
/// gauge (`InvalidMaterial`).
pub open spec fn ingredients_refusal(runes: Seq<Option<Vec<String>>>, tags: Seq<Seq<char>>, gauges: Seq<i64>, n: int) -> Option<Seq<char>>
    decreases n,
{
    if n <= 0 {
        None
    } else {
        match ingredients_refusal(runes, tags, gauges, n - 1) {
            Some(e) => Some(e),
            None => match runes[n - 1] {
                None => Some("ItemDataNotFound"@),
                Some(t) => if rune_gauge_of(t@, tags, gauges, tags.len() as int) is None { Some("InvalidMaterial"@) } else { None },
            },
        }
    }
}

/// The gauge the first `n` ingredients fill together.
pub open spec fn gauge_total(runes: Seq<Option<Vec<String>>>, tags: Seq<Seq<char>>, gauges: Seq<i64>, n: int) -> int
    decreases n,
{
    if n <= 0 {
        0
    } else {
        gauge_total(runes, tags, gauges, n - 1) + match runes[n - 1] {
            Some(t) => match rune_gauge_of(t@, tags, gauges, tags.len() as int) { Some(g) => g as int, None => 0 },
            None => 0,
        }
    }
}

proof fn lemma_gauge_total_bounded(runes: Seq<Option<Vec<String>>>, tags: Seq<Seq<char>>, gauges: Seq<i64>, n: int)
    requires
        0 <= n <= runes.len(),
    ensures
        -n * 0x8000_0000_0000_0000 <= gauge_total(runes, tags, gauges, n) <= n * 0x8000_0000_0000_0000,
    decreases n,
{
    if n > 0 {
        lemma_gauge_total_bounded(runes, tags, gauges, n - 1);
    }
}

proof fn lemma_ingredients_refusal_keeps(runes: Seq<Option<Vec<String>>>, tags: Seq<Seq<char>>, gauges: Seq<i64>, m: int, n: int)
    requires
        0 <= m <= n,
        ingredients_refusal(runes, tags, gauges, m) is Some,
    ensures
        ingredients_refusal(runes, tags, gauges, n) == ingredients_refusal(runes, tags, gauges, m),
    decreases n - m,
{
    if n > m {
        lemma_ingredients_refusal_keeps(runes, tags, gauges, m, n - 1);
    }
}

/// Checks the ingredient runes of a punishment rune craft. There must be 1 to 100
/// ingredients (`InvalidMaterial`); the gauge tags and gauges (none when the tables lack
/// them) must exist (`ItemDataNotFound`); the first refused ingredient is refused as
/// `ingredients_refusal` says; and together they must fill the gauge exactly to
/// `max_gauge` (`InvalidMaterial`).
pub fn punishment_gauge(ingredients: &Vec<i64>, runes: &Vec<Option<Vec<String>>>, tag_list: Option<&Vec<String>>, gauge_list: Option<&Vec<i64>>, max_gauge: i64)
    -> (r: Result<(), ServerError>)
    requires
        runes@.len() == ingredients@.len(),
    ensures
        ingredients@.len() == 0 || ingredients@.len() > 100 ==> r is Err && is_rule(r->Err_0, "InvalidMaterial"@),
        1 <= ingredients@.len() <= 100 && (tag_list is None || gauge_list is None) ==> r is Err && is_rule(r->Err_0, "ItemDataNotFound"@),
        1 <= ingredients@.len() <= 100 && tag_list is Some && gauge_list is Some ==> ({
            let ts = tag_list->0@.map_values(|s: String| s@);
            let gs = gauge_list->0@;
            match ingredients_refusal(runes@, ts, gs, runes@.len() as int) {
                Some(e) => r is Err && is_rule(r->Err_0, e),
                None => if gauge_total(runes@, ts, gs, runes@.len() as int) != max_gauge {
                    r is Err && is_rule(r->Err_0, "InvalidMaterial"@)
                } else {
                    r is Ok
                },
            }
        }),
{
    if ingredients.len() == 0 || ingredients.len() > 100 {
        return Err(rule("InvalidMaterial"));
    }
    let (tags, gauges) = match (tag_list, gauge_list) {
        (Some(t), Some(g)) => (t, g),
        _ => { return Err(rule("ItemDataNotFound")); },
    };
    let ghost ts = tags@.map_values(|s: String| s@);
    let mut total: i128 = 0;
    let mut i: usize = 0;
    while i < runes.len()
        invariant
            runes@.len() == ingredients@.len(),
            1 <= runes@.len() <= 100,
            tag_list == Some(tags),
            gauge_list == Some(gauges),
            ts == tags@.map_values(|s: String| s@),
            i <= runes@.len(),
            ingredients_refusal(runes@, ts, gauges@, i as int) is None,
            total == gauge_total(runes@, ts, gauges@, i as int),
        decreases runes@.len() - i,
    {
        let t = match &runes[i] {
            None => {
                proof {
                    lemma_ingredients_refusal_keeps(runes@, ts, gauges@, i + 1, runes@.len() as int);
                }
                return Err(rule("ItemDataNotFound"));
            },
            Some(t) => t,
        };
        let g = match rune_gauge(t, tags, gauges) {
            None => {
                proof {
                    lemma_ingredients_refusal_keeps(runes@, ts, gauges@, i + 1, runes@.len() as int);
                }
                return Err(rule("InvalidMaterial"));
            },
            Some(g) => g,
        };
        proof {
            lemma_gauge_total_bounded(runes@, ts, gauges@, i as int);
        }
        total = total + g as i128;
        i = i + 1;
    }
    if total != max_gauge as i128 {
        return Err(rule("InvalidMaterial"));
    }
    Ok(())
}

/// The materials a craft consumes, each item once by increasing item with its total
/// count: `ids` and `counts` list the items and counts (an item may repeat).
pub open spec fn tallied(ids: Seq<i64>, counts: Seq<i64>, r: Seq<(i64, i128)>) -> bool {
    &&& forall|i: int, j: int| 0 <= i < j < r.len() ==> r[i].0 < r[j].0
    &&& forall|x: i64| ids.contains(x) <==> exists|k: int| 0 <= k < r.len() && #[trigger] r[k].0 == x
    &&& forall|k: int| 0 <= k < r.len() ==> #[trigger] r[k].1 == count_for(ids, counts, r[k].0, ids.len() as int)
}

proof fn lemma_count_for_bounded(ids: Seq<i64>, counts: Seq<i64>, id: i64, n: int)
    requires
        0 <= n <= counts.len(),
    ensures
        -n * 0x8000_0000_0000_0000 <= count_for(ids, counts, id, n) <= n * 0x8000_0000_0000_0000,
    decreases n,
{
    if n > 0 {
        lemma_count_for_bounded(ids, counts, id, n - 1);
    }
}

/// Adds up the counts of each item; see `tallied`.
pub fn tally(ids: &Vec<i64>, counts: &Vec<i64>) -> (r: Vec<(i64, i128)>)
    requires
        ids@.len() == counts@.len(),
        ids@.len() <= 1000,
    ensures
        tallied(ids@, counts@, r@),
{
    let mut keys: Vec<i64> = Vec::new();
    let mut i: usize = 0;
    while i < ids.len()
        invariant
            i <= ids@.len(),
            ascending(keys@),
            forall|x: i64| keys@.contains(x) <==> ids@.take(i as int).contains(x),
        decreases ids@.len() - i,
    {
        let x = ids[i];
        let mut seen = false;
        let mut k: usize = 0;
        while k < keys.len()
            invariant
                k <= keys@.len(),
                seen == exists|j: int| 0 <= j < k && keys@[j] == x,
            decreases keys@.len() - k,
        {
            if keys[k] == x {
                seen = true;
            }
            k = k + 1;
        }
        proof {
            assert(ids@.take(i + 1) =~= ids@.take(i as int).push(x));
        }
        if !seen {
            insert_sorted(&mut keys, x);
        }
        proof {
            let t1 = ids@.take(i + 1);
            let t0 = ids@.take(i as int);
            assert forall|y: i64| keys@.contains(y) <==> t1.contains(y) by {
                if y == x {
                    assert(t1[i as int] == x);
                }
                if t1.contains(y) && y != x {
                    let j = choose|j: int| 0 <= j < t1.len() && t1[j] == y;
                    assert(t0[j] == y);
                }
                if t0.contains(y) {
                    let j = choose|j: int| 0 <= j < t0.len() && t0[j] == y;
                    assert(t1[j] == y);
                }
            }
        }
        i = i + 1;
    }
    proof {
        assert(ids@.take(ids@.len() as int) =~= ids@);
    }
    let mut out: Vec<(i64, i128)> = Vec::new();
    let mut p: usize = 0;
    while p < keys.len()
        invariant
            ids@.len() == counts@.len(),
            ids@.len() <= 1000,
            p <= keys@.len(),
            ascending(keys@),
            forall|x: i64| keys@.contains(x) <==> ids@.contains(x),
            out@.len() == p,
            forall|k: int| 0 <= k < p ==> #[trigger] out@[k].0 == keys@[k],
            forall|k: int| 0 <= k < p ==> #[trigger] out@[k].1 == count_for(ids@, counts@, out@[k].0, ids@.len() as int),
        decreases keys@.len() - p,
    {
        let key = keys[p];
        let mut total: i128 = 0;
        let mut j: usize = 0;
        while j < ids.len()
            invariant
                ids@.len() == counts@.len(),
                ids@.len() <= 1000,
                j <= ids@.len(),
                total == count_for(ids@, counts@, key, j as int),
            decreases ids@.len() - j,
        {
            proof {
                lemma_count_for_bounded(ids@, counts@, key, j as int);
            }
            if ids[j] == key {
                total = total + counts[j] as i128;
            }
            j = j + 1;
        }
        out.push((key, total));
        p = p + 1;
    }
    proof {
        assert forall|x: i64| ids@.contains(x) implies exists|k: int| 0 <= k < out@.len() && #[trigger] out@[k].0 == x by {
            assert(keys@.contains(x));
            let k = choose|k: int| 0 <= k < keys@.len() && keys@[k] == x;
            assert(out@[k].0 == x);
        }
        assert forall|x: i64| (exists|k: int| 0 <= k < out@.len() && #[trigger] out@[k].0 == x) implies ids@.contains(x) by {
            let k = choose|k: int| 0 <= k < out@.len() && #[trigger] out@[k].0 == x;
            assert(keys@[k] == x);
            assert(keys@.contains(x));
        }
    }
    out
}

/// Draws the values of a crafted punishment rune: the main option in `main` and each of
/// the three extra skills in its range (each range as `(min, max)`).
pub fn punishment_values(main: (i64, i64), extra: &Vec<(i64, i64)>) -> (r: (i64, Vec<i64>))
    requires
        main.0 <= main.1,
        forall|k: int| 0 <= k < extra@.len() ==> (#[trigger] extra@[k]).0 <= extra@[k].1,
    ensures
        main.0 <= r.0 <= main.1,
        r.1@.len() == extra@.len(),
        forall|k: int| 0 <= k < extra@.len() ==> extra@[k].0 <= #[trigger] r.1@[k] <= extra@[k].1,
{
    let m = crate::dice::random_between(main.0, main.1);
    let mut out: Vec<i64> = Vec::new();
    let mut k: usize = 0;
    while k < extra.len()
        invariant
            k <= extra@.len(),
            forall|j: int| 0 <= j < extra@.len() ==> (#[trigger] extra@[j]).0 <= extra@[j].1,
            out@.len() == k,
            forall|j: int| 0 <= j < k ==> extra@[j].0 <= #[trigger] out@[j] <= extra@[j].1,
        decreases extra@.len() - k,
    {
        let (lo, hi) = extra[k];
        out.push(crate::dice::random_between(lo, hi));
        k = k + 1;
    }
    (m, out)
}

/// One line of what breaking a punishment rune gives: an item and its count range.
#[derive(Clone, Copy)]
pub struct BreakLine {
    pub item: i64,
    pub min: i64,
    pub max: i64,
}

/// Draws what breaking a punishment rune gives: for each line whose maximum is positive,
/// its item with a count in its range, in the order of the lines.
pub fn punishment_break(lines: &Vec<BreakLine>) -> (r: Vec<(i64, i64)>)
    requires
        forall|k: int| 0 <= k < lines@.len() && (#[trigger] lines@[k]).max > 0 ==> lines@[k].min <= lines@[k].max,
    ensures
        r@.len() == lines@.filter(|l: BreakLine| l.max > 0).len(),
        forall|k: int| 0 <= k < r@.len() ==> ({
            let l = lines@.filter(|l: BreakLine| l.max > 0)[k];
            &&& (#[trigger] r@[k]).0 == l.item
            &&& l.min <= r@[k].1 <= l.max
        }),
{
    let ghost pos = |l: BreakLine| l.max > 0;
    let mut out: Vec<(i64, i64)> = Vec::new();
    let mut k: usize = 0;
    while k < lines.len()
        invariant
            pos == (|l: BreakLine| l.max > 0),
            k <= lines@.len(),
            forall|j: int| 0 <= j < lines@.len() && (#[trigger] lines@[j]).max > 0 ==> lines@[j].min <= lines@[j].max,
            out@.len() == lines@.take(k as int).filter(pos).len(),
            forall|j: int| 0 <= j < out@.len() ==> ({
                let l = lines@.take(k as int).filter(pos)[j];
                &&& (#[trigger] out@[j]).0 == l.item
                &&& l.min <= out@[j].1 <= l.max
            }),
        decreases lines@.len() - k,
    {
        let l = lines[k];
        proof {
            assert(lines@.take(k + 1) =~= lines@.take(k as int).push(l));
            lines@.take(k as int).lemma_filter_push(l, pos);
        }
        let ghost before = out@;
        if l.max > 0 {
            let c = crate::dice::random_between(l.min, l.max);
            out.push((l.item, c));
            proof {
                assert(pos(l));
                assert(lines@.take(k + 1).filter(pos) == lines@.take(k as int).filter(pos).push(l));
            }
        } else {
            proof {
                assert(!pos(l));
                assert(lines@.take(k + 1).filter(pos) == lines@.take(k as int).filter(pos));
            }
        }
        k = k + 1;
    }
    proof {
        assert(lines@.take(lines@.len() as int) =~= lines@);
    }
    out
}

} // verus!
