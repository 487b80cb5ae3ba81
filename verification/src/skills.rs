//! Learning, extending and upgrading a hero's skills: the checks, in order, and what the
//! change costs in gold and skill books.
use vstd::prelude::*;
use crate::error::{rule, is_rule, ServerError};
use crate::forms::Request;
use crate::renewal::{slot_value, slot_of};

verus! {

/// The three skill actions.
pub enum SkillAction {
    Learn,
    Extend,
    Upgrade,
}

/// What the creature table says of a hero's skills: the skill of each of the 5 slots
/// (entry `k - 1` for slot `k`) and the hero's tag type.
pub struct SkillCreature {
    pub skill_index: Vec<i64>,
    pub tag_type: i64,
}

/// A hero's level and, per slot, its skill level and extension.
pub struct SkillHero {
    pub level: i64,
    pub skill_levels: Vec<i64>,
    pub skill_extends: Vec<i64>,
}

/// The price of raising the skill of slot `slot` from level `level` by one.
pub struct SkillPrice {
    pub slot: i64,
    pub level: i64,
    pub gold: i64,
    pub items: i64,
}

/// The skill book used for slot `grade` of heroes of tag type `tag_type`.
pub struct SkillBook {
    pub tag_type: i64,
    pub grade: i64,
    pub item: i64,
}

/// The skill rules of the hero shop table.
pub struct SkillTable {
    /// The hero level each slot needs to be learned or extended (entry `k - 1`).
    pub req_levels: Vec<i64>,
    /// The books needed to learn a skill.
    pub learn_count: i64,
    pub max_extend: i64,
    /// The books needed for extension `n` (entry `n - 1`).
    pub extend_counts: Vec<i64>,
    pub prices: Vec<SkillPrice>,
    pub books: Vec<SkillBook>,
}

/// What changes in a hero's skill details: the level put in a slot, the extension
/// reached.
pub struct SkillChange {
    pub slot: i64,
    pub level: Option<i64>,
    pub extend: Option<i64>,
}

/// The first slot, from `k` to 5, that holds skill `id` (a positive index).
pub open spec fn slot_from(c: SkillCreature, id: i64, k: int) -> Option<int>
    decreases 6 - k,
{
    if k > 5 || k < 1 {
        None
    } else if slot_value(c.skill_index@, k) == id && id > 0 {
        Some(k)
    } else {
        slot_from(c, id, k + 1)
    }
}

/// The slot that holds skill `id`.
pub open spec fn skill_slot(c: SkillCreature, id: i64) -> Option<int> {
    slot_from(c, id, 1)
}

/// The first price row for slot `slot` at level `lev`.
pub open spec fn price_row(prices: Seq<SkillPrice>, slot: int, lev: int) -> Option<SkillPrice>
    decreases prices.len(),
{
    if prices.len() == 0 {
        None
    } else {
        match price_row(prices.drop_last(), slot, lev) {
            Some(p) => Some(p),
            None => if prices.last().slot == slot && prices.last().level == lev { Some(prices.last()) } else { None },
        }
    }
}

/// The first book row for tag type `tag` and slot `grade`.
pub open spec fn book_row(books: Seq<SkillBook>, tag: int, grade: int) -> Option<SkillBook>
    decreases books.len(),
{
    if books.len() == 0 {
        None
    } else {
        match book_row(books.drop_last(), tag, grade) {
            Some(b) => Some(b),
            None => if books.last().tag_type == tag && books.last().grade == grade { Some(books.last()) } else { None },
        }
    }
}

/// The gold and books it takes to raise slot `slot` from level `from` to `to`: the sum of
/// the prices of each level on the way, none when a price is missing.
pub open spec fn upgrade_cost(prices: Seq<SkillPrice>, slot: int, from: int, to: int) -> Option<(int, int)>
    decreases to - from,
{
    if to <= from {
        Some((0, 0))
    } else {
        match upgrade_cost(prices, slot, from, to - 1) {
            None => None,
            Some(c) => match price_row(prices, slot, to - 1) {
                None => None,
                Some(p) => Some((c.0 + p.gold, c.1 + p.items)),
            },
        }
    }
}

fn find_slot(c: &SkillCreature, id: i64) -> (r: Option<i64>)
    ensures
        r is None <==> skill_slot(*c, id) is None,
        r matches Some(s) ==> skill_slot(*c, id) == Some(s as int),
{
    let mut k: i64 = 1;
    while k <= 5
        invariant
            1 <= k <= 6,
            skill_slot(*c, id) == slot_from(*c, id, k as int),
        decreases 6 - k,
    {
        if slot_of(&c.skill_index, k) == id && id > 0 {
            return Some(k);
        }
        k = k + 1;
    }
    None
}

proof fn lemma_price_row_prefix(prices: Seq<SkillPrice>, n: int, slot: int, lev: int)
    requires
        0 <= n <= prices.len(),
        price_row(prices.take(n), slot, lev) is Some,
    ensures
        price_row(prices, slot, lev) == price_row(prices.take(n), slot, lev),
    decreases prices.len() - n,
{
    if n < prices.len() {
        assert(prices.take(n + 1).drop_last() =~= prices.take(n));
        lemma_price_row_prefix(prices, n + 1, slot, lev);
    } else {
        assert(prices.take(n) =~= prices);
    }
}

fn find_price(prices: &Vec<SkillPrice>, slot: i64, lev: i64) -> (r: Option<usize>)
    ensures
        r is None <==> price_row(prices@, slot as int, lev as int) is None,
        r matches Some(i) ==> i < prices@.len() && price_row(prices@, slot as int, lev as int) == Some(prices@[i as int]),
{
    let mut i: usize = 0;
    while i < prices.len()
        invariant
            i <= prices@.len(),
            price_row(prices@.take(i as int), slot as int, lev as int) is None,
        decreases prices@.len() - i,
    {
        proof {
            assert(prices@.take(i + 1).drop_last() =~= prices@.take(i as int));
        }
        if prices[i].slot == slot && prices[i].level == lev {
            proof {
                lemma_price_row_prefix(prices@, i + 1, slot as int, lev as int);
            }
            return Some(i);
        }
        i = i + 1;
    }
    proof {
        assert(prices@.take(prices@.len() as int) =~= prices@);
    }
    None
}

proof fn lemma_book_row_prefix(books: Seq<SkillBook>, n: int, tag: int, grade: int)
    requires
        0 <= n <= books.len(),
        book_row(books.take(n), tag, grade) is Some,
    ensures
        book_row(books, tag, grade) == book_row(books.take(n), tag, grade),
    decreases books.len() - n,
{
    if n < books.len() {
        assert(books.take(n + 1).drop_last() =~= books.take(n));
        lemma_book_row_prefix(books, n + 1, tag, grade);
    } else {
        assert(books.take(n) =~= books);
    }
}

fn find_book(books: &Vec<SkillBook>, tag: i64, grade: i64) -> (r: Option<usize>)
    ensures
        r is None <==> book_row(books@, tag as int, grade as int) is None,
        r matches Some(i) ==> i < books@.len() && book_row(books@, tag as int, grade as int) == Some(books@[i as int]),
{
    let mut i: usize = 0;
    while i < books.len()
        invariant
            i <= books@.len(),
            book_row(books@.take(i as int), tag as int, grade as int) is None,
        decreases books@.len() - i,
    {
        proof {
            assert(books@.take(i + 1).drop_last() =~= books@.take(i as int));
        }
        if books[i].tag_type == tag && books[i].grade == grade {
            proof {
                lemma_book_row_prefix(books@, i + 1, tag as int, grade as int);
            }
            return Some(i);
        }
        i = i + 1;
    }
    proof {
        assert(books@.take(books@.len() as int) =~= books@);
    }
    None
}

} // verus!

verus! {

/// The bound that the table's counts and prices keep to, so that no sum over 100 skills
/// leaves `i64`.
pub open spec fn cost_bound() -> int {
    0x100_0000_0000
}

/// True when every count and price of the table is within `cost_bound`.
pub open spec fn table_ok(t: SkillTable) -> bool {
    &&& -cost_bound() <= t.learn_count <= cost_bound()
    &&& forall|k: int| 0 <= k < t.extend_counts@.len() ==> -cost_bound() <= #[trigger] t.extend_counts@[k] <= cost_bound()
    &&& forall|k: int| 0 <= k < t.prices@.len() ==> -cost_bound() <= #[trigger] t.prices@[k].gold <= cost_bound()
        && -cost_bound() <= t.prices@[k].items <= cost_bound()
}

/// The totals gathered over the skills handled so far: gold, books, the book item, whether
/// anything changed, and the changes.
pub type SkillTally = (int, int, Option<i32>, bool, Seq<SkillChange>);

/// What one skill of a request adds to the tally, or the code that refuses it. `ext` is
/// the `SkillExtend` field (none when it is not a number).
pub open spec fn skill_step(a: SkillAction, c: SkillCreature, h: SkillHero, t: SkillTable, ext: Option<i64>, acc: SkillTally, id: i64, target: i64) -> Result<SkillTally, Seq<char>> {
    match skill_slot(c, id) {
        None => Err("SkillNotFound"@),
        Some(slot) => {
            let level = slot_value(h.skill_levels@, slot);
            if !(a is Upgrade) && h.level < slot_value(t.req_levels@, slot) {
                Err("TeamLevelLimit"@)
            } else {
                let changed = acc.3 || !(a is Upgrade) || target > level;
                match skill_cost(a, h, t, ext, slot, level, target) {
                    Err(e) => Err(e),
                    Ok(x) => book_step(c, t, acc, slot, x.0, x.1, x.2, changed),
                }
            }
        },
    }
}

/// The books and gold one skill needs and the change it makes, or the code that refuses
/// it.
pub open spec fn skill_cost(a: SkillAction, h: SkillHero, t: SkillTable, ext: Option<i64>, slot: int, level: i64, target: i64) -> Result<(int, int, SkillChange), Seq<char>> {
    match a {
        SkillAction::Learn => if level > 0 {
            Err("SkillAlreadyLearned"@)
        } else {
            Ok((t.learn_count as int, 0int, SkillChange { slot: slot as i64, level: Some(1i64), extend: None }))
        },
        SkillAction::Extend => if level <= 0 {
            Err("SkillNotLearned"@)
        } else {
            match ext {
                None => Err("InvalidValue"@),
                Some(next) => if next != slot_value(h.skill_extends@, slot) + 1 || next > t.max_extend {
                    Err("InvalidSkillExtend"@)
                } else {
                    Ok((slot_value(t.extend_counts@, next as int) as int, 0int, SkillChange { slot: slot as i64, level: None, extend: Some(next) }))
                },
            }
        },
        SkillAction::Upgrade => if level <= 0 || target < level || target > (if h.level < 91 { h.level } else { 91 }) {
            Err("CannotUpgradeMore"@)
        } else {
            match upgrade_cost(t.prices@, slot, level as int, target as int) {
                None => Err("SkillPriceNotFound"@),
                Some(p) => Ok((p.1, p.0, SkillChange { slot: slot as i64, level: Some(target), extend: None })),
            }
        },
    }
}

/// Adds one skill's books and gold to the tally: books are taken from the book of the
/// slot and the hero's tag type, and one request uses one book item only.
pub open spec fn book_step(c: SkillCreature, t: SkillTable, acc: SkillTally, slot: int, required: int, gold: int, ch: SkillChange, changed: bool) -> Result<SkillTally, Seq<char>> {
    if required > 0 {
        match book_row(t.books@, c.tag_type as int, slot) {
            None => Err("BookItemDataNotFound"@),
            Some(b) => if acc.2 is Some && acc.2->0 != b.item as i32 {
                Err("UpgradeBookDataNotFound"@)
            } else {
                Ok((acc.0 + gold, acc.1 + required, Some(b.item as i32), changed, acc.4.push(ch)))
            },
        }
    } else {
        Ok((acc.0 + gold, acc.1, acc.2, changed, acc.4.push(ch)))
    }
}

/// The tally over the first `n` skills of a request, or the code of the first skill
/// refused.
pub open spec fn skills_tally(a: SkillAction, c: SkillCreature, h: SkillHero, t: SkillTable, ext: Option<i64>, ids: Seq<i64>, targets: Seq<i64>, n: int) -> Result<SkillTally, Seq<char>>
    decreases n,
{
    if n <= 0 {
        Ok((0int, 0int, None, false, Seq::empty()))
    } else {
        match skills_tally(a, c, h, t, ext, ids, targets, n - 1) {
            Err(e) => Err(e),
            Ok(acc) => skill_step(a, c, h, t, ext, acc, ids[n - 1], targets[n - 1]),
        }
    }
}

proof fn lemma_upgrade_cost_bound(prices: Seq<SkillPrice>, slot: int, from: int, to: int)
    requires
        from <= to,
        forall|k: int| 0 <= k < prices.len() ==> -cost_bound() <= #[trigger] prices[k].gold <= cost_bound()
            && -cost_bound() <= prices[k].items <= cost_bound(),
    ensures
        upgrade_cost(prices, slot, from, to) matches Some(p) ==>
            -(to - from) * cost_bound() <= p.0 <= (to - from) * cost_bound()
            && -(to - from) * cost_bound() <= p.1 <= (to - from) * cost_bound(),
    decreases to - from,
{
    if from < to {
        lemma_upgrade_cost_bound(prices, slot, from, to - 1);
        lemma_price_row_in(prices, slot, to - 1);
    }
}

proof fn lemma_price_row_in(prices: Seq<SkillPrice>, slot: int, lev: int)
    ensures
        price_row(prices, slot, lev) matches Some(p) ==> exists|k: int| 0 <= k < prices.len() && prices[k] == p,
    decreases prices.len(),
{
    if prices.len() > 0 {
        lemma_price_row_in(prices.drop_last(), slot, lev);
        if price_row(prices.drop_last(), slot, lev) is Some {
            let p = price_row(prices.drop_last(), slot, lev)->0;
            let k = choose|k: int| 0 <= k < prices.drop_last().len() && prices.drop_last()[k] == p;
            assert(prices[k] == p);
        } else {
            assert(prices[prices.len() - 1] == prices.last());
        }
    }
}

} // verus!

verus! {

/// The totals of a skill request while it is being checked.
pub struct SkillRun {
    pub gold: i64,
    pub count: i64,
    pub book: Option<i32>,
    pub changed: bool,
    pub changes: Vec<SkillChange>,
}

impl SkillRun {
    /// The tally these totals stand for.
    pub open spec fn tally(&self) -> SkillTally {
        (self.gold as int, self.count as int, self.book, self.changed, self.changes@)
    }
}

/// True when the totals stay within what `k` skills can add up to.
pub open spec fn run_bounded(run: SkillRun, k: int) -> bool {
    &&& -k * 91 * cost_bound() <= run.gold <= k * 91 * cost_bound()
    &&& -k * 91 * cost_bound() <= run.count <= k * 91 * cost_bound()
}

proof fn lemma_upgrade_cost_missing(prices: Seq<SkillPrice>, slot: int, from: int, to: int, to2: int)
    requires
        from <= to <= to2,
        upgrade_cost(prices, slot, from, to) is None,
    ensures
        upgrade_cost(prices, slot, from, to2) is None,
    decreases to2 - to,
{
    if to < to2 {
        lemma_upgrade_cost_missing(prices, slot, from, to, to2 - 1);
    }
}

fn skill_step_exec(a: &SkillAction, c: &SkillCreature, h: &SkillHero, t: &SkillTable, req: &Request, run: SkillRun, id: i64, target: i64, Ghost(k): Ghost<int>) -> (r: Result<SkillRun, ServerError>)
    requires
        table_ok(*t),
        0 <= k < 100,
        run_bounded(run, k),
    ensures
        match skill_step(*a, *c, *h, *t, req.number_of("SkillExtend"@, 0), run.tally(), id, target) {
            Ok(acc) => r is Ok && r->Ok_0.tally() == acc && run_bounded(r->Ok_0, k + 1),
            Err(e) => r is Err && is_rule(r->Err_0, e),
        },
{
    let slot = match find_slot(c, id) {
        None => { return Err(rule("SkillNotFound")); },
        Some(s) => s,
    };
    let level = slot_of(&h.skill_levels, slot);
    let upgrading = match a { SkillAction::Upgrade => true, _ => false };
    if !upgrading && h.level < slot_of(&t.req_levels, slot) {
        return Err(rule("TeamLevelLimit"));
    }
    let changed = run.changed || !upgrading || target > level;
    let ghost ext = req.number_of("SkillExtend"@, 0);
    let required: i64;
    let gold_add: i64;
    let ch: SkillChange;
    match a {
        SkillAction::Learn => {
            if level > 0 {
                return Err(rule("SkillAlreadyLearned"));
            }
            required = t.learn_count;
            gold_add = 0;
            ch = SkillChange { slot, level: Some(1), extend: None };
        },
        SkillAction::Extend => {
            if level <= 0 {
                return Err(rule("SkillNotLearned"));
            }
            let next = req.number("SkillExtend", 0)?;
            let cur = slot_of(&h.skill_extends, slot);
            if !(cur < i64::MAX && next == cur + 1) || next > t.max_extend {
                return Err(rule("InvalidSkillExtend"));
            }
            required = slot_of(&t.extend_counts, next);
            proof {
                if 1 <= next <= t.extend_counts@.len() {
                    assert(-cost_bound() <= t.extend_counts@[next - 1] <= cost_bound());
                }
            }
            gold_add = 0;
            ch = SkillChange { slot, level: None, extend: Some(next) };
        },
        SkillAction::Upgrade => {
            let cap: i64 = if h.level < 91 { h.level } else { 91 };
            if level <= 0 || target < level || target > cap {
                return Err(rule("CannotUpgradeMore"));
            }
            let mut g: i64 = 0;
            let mut items: i64 = 0;
            let mut lev = level;
            while lev < target
                invariant
                    table_ok(*t),
                    1 <= level <= lev <= target <= 91,
                    target <= h.level,
                    *a is Upgrade,
                    skill_slot(*c, id) == Some(slot as int),
                    level == slot_value(h.skill_levels@, slot as int),
                    upgrade_cost(t.prices@, slot as int, level as int, lev as int) == Some((g as int, items as int)),
                    -(lev - level) * cost_bound() <= g <= (lev - level) * cost_bound(),
                    -(lev - level) * cost_bound() <= items <= (lev - level) * cost_bound(),
                decreases target - lev,
            {
                match find_price(&t.prices, slot, lev) {
                    None => {
                        proof {
                            assert(upgrade_cost(t.prices@, slot as int, level as int, lev + 1) is None);
                            lemma_upgrade_cost_missing(t.prices@, slot as int, level as int, lev + 1, target as int);
                        }
                        return Err(rule("SkillPriceNotFound"));
                    },
                    Some(p) => {
                        proof {
                            assert(-cost_bound() <= t.prices@[p as int].gold <= cost_bound());
                        }
                        g = g + t.prices[p].gold;
                        items = items + t.prices[p].items;
                    },
                }
                lev = lev + 1;
            }
            required = items;
            gold_add = g;
            ch = SkillChange { slot, level: Some(target), extend: None };
        },
    }
    proof {
        assert(skill_cost(*a, *h, *t, ext, slot as int, level, target) == Ok::<(int, int, SkillChange), Seq<char>>((required as int, gold_add as int, ch)));
        assert(-91 * cost_bound() <= required <= 91 * cost_bound());
        assert(-91 * cost_bound() <= gold_add <= 91 * cost_bound());
    }
    let mut changes = run.changes;
    if required > 0 {
        match find_book(&t.books, c.tag_type, slot) {
            None => { return Err(rule("BookItemDataNotFound")); },
            Some(b) => {
                let bid = #[verifier::truncate] (t.books[b].item as i32);
                match run.book {
                    Some(x) => if x != bid {
                        return Err(rule("UpgradeBookDataNotFound"));
                    },
                    None => {},
                }
                changes.push(ch);
                Ok(SkillRun { gold: run.gold + gold_add, count: run.count + required, book: Some(bid), changed, changes })
            },
        }
    } else {
        changes.push(ch);
        Ok(SkillRun { gold: run.gold + gold_add, count: run.count, book: run.book, changed, changes })
    }
}

} // verus!

verus! {

/// The outcome of a skill request on the skills `ids` and target levels `targets`: the
/// tally of all of them, or the code of the first check that fails. The lists must match
/// in length and name each skill once, and some skill must change.
pub open spec fn skill_outcome(a: SkillAction, c: SkillCreature, h: SkillHero, t: SkillTable, ext: Option<i64>, ids: Seq<i64>, targets: Seq<i64>) -> Result<SkillTally, Seq<char>> {
    if ids.len() != targets.len() || !crate::lists::distinct(ids) {
        Err("SkillNotFound"@)
    } else {
        match skills_tally(a, c, h, t, ext, ids, targets, ids.len() as int) {
            Err(e) => Err(e),
            Ok(acc) => if !acc.3 { Err("CannotUpgradeMore"@) } else { Ok(acc) },
        }
    }
}

/// What a skill request costs and changes.
pub struct SkillPlan {
    /// The gold to take.
    pub gold: i64,
    /// The book item to take and how many.
    pub book: Option<(i32, i64)>,
    /// The changes, in the order of the request.
    pub changes: Vec<SkillChange>,
}

/// True when `r` gives what the outcome `o` says: the plan of a tally, or its refusal.
pub open spec fn plan_matches(o: Result<SkillTally, Seq<char>>, r: Result<SkillPlan, ServerError>) -> bool {
    match o {
        Ok(acc) => {
            &&& r is Ok
            &&& r->Ok_0.gold == acc.0
            &&& r->Ok_0.changes@ == acc.4
            &&& r->Ok_0.book == (match acc.2 { Some(b) => Some((b, acc.1 as i64)), None => None })
        },
        Err(e) => r is Err && is_rule(r->Err_0, e),
    }
}

fn tally_all(a: &SkillAction, c: &SkillCreature, h: &SkillHero, t: &SkillTable, req: &Request, ids: &Vec<i64>, targets: &Vec<i64>) -> (r: Result<SkillPlan, ServerError>)
    requires
        table_ok(*t),
        ids@.len() <= 100,
    ensures
        plan_matches(skill_outcome(*a, *c, *h, *t, req.number_of("SkillExtend"@, 0), ids@, targets@), r),
{
    if ids.len() != targets.len() || !crate::lists::is_distinct(ids) {
        return Err(rule("SkillNotFound"));
    }
    let ghost ext = req.number_of("SkillExtend"@, 0);
    let mut run = SkillRun { gold: 0, count: 0, book: None, changed: false, changes: Vec::new() };
    let mut i: usize = 0;
    proof {
        assert(run.tally() =~= (0int, 0int, None::<i32>, false, Seq::<SkillChange>::empty()));
    }
    while i < ids.len()
        invariant
            table_ok(*t),
            ids@.len() <= 100,
            ids@.len() == targets@.len(),
            crate::lists::distinct(ids@),
            ext == req.number_of("SkillExtend"@, 0),
            i <= ids@.len(),
            run_bounded(run, i as int),
            skills_tally(*a, *c, *h, *t, ext, ids@, targets@, i as int) == Ok::<SkillTally, Seq<char>>(run.tally()),
        decreases ids@.len() - i,
    {
        match skill_step_exec(a, c, h, t, req, run, ids[i], targets[i], Ghost(i as int)) {
            Ok(next) => { run = next; },
            Err(e) => {
                proof {
                    lemma_tally_error_sticks(*a, *c, *h, *t, ext, ids@, targets@, i + 1);
                }
                return Err(e);
            },
        }
        i = i + 1;
    }
    if !run.changed {
        return Err(rule("CannotUpgradeMore"));
    }
    let book = match run.book {
        Some(b) => Some((b, run.count)),
        None => None,
    };
    Ok(SkillPlan { gold: run.gold, book, changes: run.changes })
}

proof fn lemma_tally_error_sticks(a: SkillAction, c: SkillCreature, h: SkillHero, t: SkillTable, ext: Option<i64>, ids: Seq<i64>, targets: Seq<i64>, k: int)
    requires
        0 <= k <= ids.len(),
        skills_tally(a, c, h, t, ext, ids, targets, k) is Err,
    ensures
        skills_tally(a, c, h, t, ext, ids, targets, ids.len() as int) == skills_tally(a, c, h, t, ext, ids, targets, k),
    decreases ids.len() - k,
{
    if k < ids.len() {
        lemma_tally_error_sticks(a, c, h, t, ext, ids, targets, k + 1);
    }
}

/// Learns (`Learn`), extends (`Extend`) or upgrades (`Upgrade`) skills of a hero. An
/// upgrade names its skills in `SkillIndices` and their target levels in `TargetLevels`
/// (JSON lists of 1 to 100 entries, refused with `InvalidValue` otherwise); the other
/// actions name one skill in `SkillIndex`.
pub fn skill_plan(a: &SkillAction, req: &Request, c: &SkillCreature, h: &SkillHero, t: &SkillTable) -> (r: Result<SkillPlan, ServerError>)
    requires
        table_ok(*t),
    ensures
        ({
            let ext = req.number_of("SkillExtend"@, 0);
            if *a is Upgrade {
                match (crate::lists::short_list_of(*req, "SkillIndices"@), crate::lists::short_list_of(*req, "TargetLevels"@)) {
                    (Some(ids), Some(targets)) => plan_matches(skill_outcome(*a, *c, *h, *t, ext, ids, targets), r),
                    _ => r is Err && is_rule(r->Err_0, "InvalidValue"@),
                }
            } else {
                match req.number_of("SkillIndex"@, 0) {
                    Some(id) => plan_matches(skill_outcome(*a, *c, *h, *t, ext, seq![id], seq![0i64]), r),
                    None => r is Err && is_rule(r->Err_0, "InvalidValue"@),
                }
            }
        }),
{
    match a {
        SkillAction::Upgrade => {
            let ids = crate::lists::short_list(req, "SkillIndices")?;
            let targets = crate::lists::short_list(req, "TargetLevels")?;
            tally_all(a, c, h, t, req, &ids, &targets)
        },
        _ => {
            let id = req.number("SkillIndex", 0)?;
            let ids = vec![id];
            let targets: Vec<i64> = vec![0];
            proof {
                assert(ids@ =~= seq![id]);
                assert(targets@ =~= seq![0i64]);
            }
            tally_all(a, c, h, t, req, &ids, &targets)
        },
    }
}

} // verus!
