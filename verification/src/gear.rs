//! Equipment work: material lists, confirming a pending option, choosing the enchant
//! slot, and what breaking a piece of equipment gives.
use vstd::prelude::*;
use crate::error::{rule, is_rule, ServerError};
use crate::forms::Request;
use crate::text::str_eq;
use crate::lists::json_int_array;
use crate::renewal::{slot_value, slot_of};
use vstd::string::StrSliceExecFns;

verus! {

/// The item of pair `i` of `v`.
pub open spec fn item_at(v: Seq<i64>, i: int) -> i64 {
    v[2 * i]
}

/// The count of pair `i` of `v`.
pub open spec fn count_at(v: Seq<i64>, i: int) -> i64 {
    v[2 * i + 1]
}

/// True when the first `k` pairs of `v` (entries `2i`, `2i + 1`) are good materials: a
/// positive item, a count of 1 to 100000, and no item twice.
pub open spec fn materials_fine(v: Seq<i64>, k: int) -> bool {
    forall|i: int| 0 <= i < k ==> {
        &&& #[trigger] item_at(v, i) > 0
        &&& 1 <= count_at(v, i) <= 100000
        &&& forall|j: int| 0 <= j < i ==> #[trigger] item_at(v, j) != item_at(v, i)
    }
}

/// The pairs of `v`.
pub open spec fn pairs_of(v: Seq<i64>) -> Seq<(i64, i64)> {
    Seq::new((v.len() / 2) as nat, |i: int| (v[2 * i], v[2 * i + 1]))
}

/// The materials a field names: none for an empty field; else a JSON list of item and
/// count alternating, at most 100 pairs, each a good material; `InvalidMaterial`
/// otherwise.
pub open spec fn materials_of(text: Seq<char>) -> Result<Seq<(i64, i64)>, Seq<char>> {
    if text.len() == 0 {
        Ok(Seq::empty())
    } else {
        match json_int_array(text) {
            None => Err("InvalidMaterial"@),
            Some(v) => if v.len() % 2 != 0 || v.len() > 200 || !materials_fine(v, (v.len() / 2) as int) {
                Err("InvalidMaterial"@)
            } else {
                Ok(pairs_of(v))
            },
        }
    }
}

/// Reads the materials of field `key`; see `materials_of`.
pub fn item_pairs(req: &Request, key: &str) -> (r: Result<Vec<(i64, i64)>, ServerError>)
    ensures
        match materials_of(req.text_of(key@)) {
            Ok(v) => r is Ok && r->Ok_0@ == v,
            Err(e) => r is Err && is_rule(r->Err_0, e),
        },
{
    let text = req.text(key);
    if text.unicode_len() == 0 {
        proof {
            assert(Seq::<(i64, i64)>::empty() =~= Seq::empty());
        }
        return Ok(Vec::new());
    }
    let v = crate::lists::int_array(text, "InvalidMaterial")?;
    let n = v.len();
    if n % 2 != 0 || n > 200 {
        return Err(rule("InvalidMaterial"));
    }
    let half = n / 2;
    let mut out: Vec<(i64, i64)> = Vec::new();
    let mut i: usize = 0;
    while i < half
        invariant
            n == v@.len(),
            n <= 200,
            n % 2 == 0,
            json_int_array(req.text_of(key@)) == Some(v@),
            req.text_of(key@).len() != 0,
            half == n / 2,
            i <= half,
            materials_fine(v@, i as int),
            out@ =~= pairs_of(v@).take(i as int),
        decreases half - i,
    {
        let item = v[2 * i];
        let count = v[2 * i + 1];
        let mut fresh = true;
        let mut j: usize = 0;
        while j < i
            invariant
                n == v@.len(),
                half == n / 2,
                i < half,
                j <= i,
                item == item_at(v@, i as int),
                fresh <==> forall|m: int| 0 <= m < j ==> #[trigger] item_at(v@, m) != item,
            decreases i - j,
        {
            proof {
                assert(item_at(v@, j as int) == v@[2 * j as int]);
            }
            if v[2 * j] == item {
                fresh = false;
            }
            j = j + 1;
        }
        if !(item > 0 && 1 <= count && count <= 100000 && fresh) {
            proof {
                assert(!materials_fine(v@, half as int)) by {
                    if materials_fine(v@, half as int) {
                        assert(item_at(v@, i as int) > 0);
                        if !fresh {
                            let m = choose|m: int| 0 <= m < i && #[trigger] item_at(v@, m) == item;
                            assert(item_at(v@, m) != item_at(v@, i as int));
                        }
                    }
                }
            }
            return Err(rule("InvalidMaterial"));
        }
        out.push((item, count));
        proof {
            assert(item_at(v@, i as int) == item && count_at(v@, i as int) == count);
            assert forall|a: int| 0 <= a < i + 1 implies {
                &&& #[trigger] item_at(v@, a) > 0
                &&& 1 <= count_at(v@, a) <= 100000
                &&& forall|b: int| 0 <= b < a ==> #[trigger] item_at(v@, b) != item_at(v@, a)
            } by {
                if a < i {
                    assert(item_at(v@, a) > 0);
                }
            }
        }
        i = i + 1;
    }
    proof {
        assert(pairs_of(v@).take(half as int) =~= pairs_of(v@));
    }
    Ok(out)
}

/// Which pending choice a confirmation settles.
pub enum ConfirmKind {
    Enchant,
    Skill,
    Option,
}

/// The kind of choice an action confirms.
pub fn confirm_kind(action: &str) -> (r: ConfirmKind)
    ensures
        r == (if action@ == "confirm_equip_enchant_option"@ { ConfirmKind::Enchant }
            else if action@ == "renew_confirm_equip_skill"@ { ConfirmKind::Skill }
            else { ConfirmKind::Option }),
{
    if str_eq(action, "confirm_equip_enchant_option") {
        ConfirmKind::Enchant
    } else if str_eq(action, "renew_confirm_equip_skill") {
        ConfirmKind::Skill
    } else {
        ConfirmKind::Option
    }
}

/// A pending choice: the slot, and the option and step drawn for it.
pub struct PendingChoice {
    pub slot: i64,
    pub index: i64,
    pub step: i64,
}

/// True when the player keeps the new choice (`IsNew` is `true`, `True` or `1`).
pub open spec fn accepts(req: Request) -> bool {
    let t = req.text_of("IsNew"@);
    t == "true"@ || t == "True"@ || t == "1"@
}

/// The outcome of a confirmation: the choice to store, none when the player keeps the
/// old one, or a refusal. `pending` is none when nothing is pending and holds none when the
/// pending record cannot be read; `current` holds the slots' present options.
pub open spec fn confirm_of(kind: ConfirmKind, pending: Option<Option<PendingChoice>>, req: Request, current: Seq<i64>) -> Result<Option<PendingChoice>, Seq<char>> {
    match pending {
        None => Err("UnconfirmedOption"@),
        Some(None) => Err("InvalidOption"@),
        Some(Some(p)) => {
            let slot_key = if kind is Skill { "SkillSlotIndex"@ } else { "OptionSlotIndex"@ };
            let confirm_key = if kind is Enchant { "ConfirmEnchantOptionIndex"@ } else if kind is Skill { "ConfirmSkillIndex"@ } else { "ConfirmOptionIndex"@ };
            let expected = if accepts(req) { p.index } else { slot_value(current, p.slot as int) };
            if !(kind is Enchant) && req.number_of(slot_key, 0) is None {
                Err("InvalidValue"@)
            } else if !(kind is Enchant) && req.number_of(slot_key, 0)->0 != p.slot {
                Err("InvalidOption"@)
            } else {
                match req.number_of(confirm_key, 0) {
                    None => Err("InvalidValue"@),
                    Some(v) => if v != expected {
                        Err("InvalidOption"@)
                    } else if accepts(req) {
                        Ok(Some(p))
                    } else {
                        Ok(None)
                    },
                }
            }
        },
    }
}

/// Settles a pending choice; see `confirm_of`.
pub fn confirm_choice(kind: &ConfirmKind, pending: &Option<Option<PendingChoice>>, req: &Request, current: &Vec<i64>) -> (r: Result<Option<PendingChoice>, ServerError>)
    ensures
        match confirm_of(*kind, *pending, *req, current@) {
            Ok(v) => r == Ok::<Option<PendingChoice>, ServerError>(v),
            Err(e) => r is Err && is_rule(r->Err_0, e),
        },
{
    let p = match pending {
        None => { return Err(rule("UnconfirmedOption")); },
        Some(None) => { return Err(rule("InvalidOption")); },
        Some(Some(p)) => p,
    };
    let t = req.text("IsNew");
    proof {
        reveal_strlit("1");
    }
    let accepted = str_eq(t, "true") || str_eq(t, "True") || str_eq(t, "1");
    let enchant = match kind { ConfirmKind::Enchant => true, _ => false };
    let skill = match kind { ConfirmKind::Skill => true, _ => false };
    if !enchant {
        let s = req.number(if skill { "SkillSlotIndex" } else { "OptionSlotIndex" }, 0)?;
        if s != p.slot {
            return Err(rule("InvalidOption"));
        }
    }
    let expected = if accepted { p.index } else { slot_of(current, p.slot) };
    let v = req.number(if enchant { "ConfirmEnchantOptionIndex" } else if skill { "ConfirmSkillIndex" } else { "ConfirmOptionIndex" }, 0)?;
    if v != expected {
        return Err(rule("InvalidOption"));
    }
    if accepted {
        Ok(Some(PendingChoice { slot: p.slot, index: p.index, step: p.step }))
    } else {
        Ok(None)
    }
}

} // verus!

verus! {

/// An enchant item of the enchant table: its code and its three option lists (an entry
/// is none when it is not an integer).
pub struct EnchantItem {
    pub code: String,
    pub option_lists: Vec<Vec<Option<i64>>>,
}

/// A row of the enchantable-condition table.
pub struct EnchantCondition {
    pub tier: i64,
    pub detail: i64,
    pub codes: Vec<String>,
}

/// True when `codes` lists `code`.
pub open spec fn lists_code(codes: Seq<String>, code: Seq<char>) -> bool {
    exists|k: int| 0 <= k < codes.len() && codes[k]@ == code
}

/// True when an item of tier `tier` and detail `detail` whose own codes are `own` takes
/// the enchant item `code`: its own codes list it, or a condition row of its tier and
/// detail does.
pub open spec fn enchantable(own: Seq<String>, tier: i64, detail: i64, conditions: Seq<EnchantCondition>, code: Seq<char>) -> bool {
    ||| lists_code(own, code)
    ||| exists|k: int| 0 <= k < conditions.len() && conditions[k].tier == tier && conditions[k].detail == detail
            && lists_code(conditions[k].codes@, code)
}

/// The first of slots 1 to 3 whose option list is not empty.
pub open spec fn enchant_slot_of(lists: Seq<Vec<Option<i64>>>, k: int) -> Option<int>
    decreases 4 - k,
{
    if k < 1 || k > 3 {
        None
    } else if k <= lists.len() && lists[k - 1]@.len() > 0 {
        Some(k)
    } else {
        enchant_slot_of(lists, k + 1)
    }
}

fn has_code(codes: &Vec<String>, code: &str) -> (r: bool)
    ensures
        r == lists_code(codes@, code@),
{
    let mut i: usize = 0;
    while i < codes.len()
        invariant
            i <= codes@.len(),
            forall|k: int| 0 <= k < i ==> codes@[k]@ != code@,
        decreases codes@.len() - i,
    {
        if str_eq(codes[i].as_str(), code) {
            return true;
        }
        i = i + 1;
    }
    false
}

/// The slot an enchant item fills and the options it may draw. Refused with
/// `ItemDataNotFound` when the enchant item or the equipment is unknown (none), and with
/// `InvalidEnchantItem` when the equipment does not take the item or the item has no
/// options.
pub fn enchant_slot(item: &Option<EnchantItem>, own: &Option<Vec<String>>, tier: i64, detail: i64, conditions: &Vec<EnchantCondition>) -> (r: Result<(i64, Vec<i64>), ServerError>)
    ensures
        match (*item, *own) {
            (Some(e), Some(codes)) => if !enchantable(codes@, tier, detail, conditions@, e.code@) {
                r is Err && is_rule(r->Err_0, "InvalidEnchantItem"@)
            } else {
                match enchant_slot_of(e.option_lists@, 1) {
                    None => r is Err && is_rule(r->Err_0, "InvalidEnchantItem"@),
                    Some(k) => r is Ok && r->Ok_0.0 == k
                        && (forall|x: i64| r->Ok_0.1@.contains(x) <==> e.option_lists@[k - 1]@.contains(Some(x))),
                }
            },
            _ => r is Err && is_rule(r->Err_0, "ItemDataNotFound"@),
        },
{
    let e = match item {
        None => { return Err(rule("ItemDataNotFound")); },
        Some(e) => e,
    };
    let codes = match own {
        None => { return Err(rule("ItemDataNotFound")); },
        Some(c) => c,
    };
    let mut allowed = has_code(codes, e.code.as_str());
    let mut i: usize = 0;
    while i < conditions.len() && !allowed
        invariant
            i <= conditions@.len(),
            allowed <==> enchantable(codes@, tier, detail, conditions@.take(i as int), e.code@),
        decreases conditions@.len() - i,
    {
        let c = &conditions[i];
        proof {
            let t0 = conditions@.take(i as int);
            let t1 = conditions@.take(i + 1);
            assert(t1 =~= t0.push(conditions@[i as int]));
            assert forall|k: int| 0 <= k < t0.len() implies t0[k] == t1[k] by {}
        }
        if c.tier == tier && c.detail == detail && has_code(&c.codes, e.code.as_str()) {
            allowed = true;
            proof {
                let t1 = conditions@.take(i + 1);
                assert(t1[i as int] == conditions@[i as int]);
            }
        } else {
            proof {
                let t0 = conditions@.take(i as int);
                let t1 = conditions@.take(i + 1);
                if exists|k: int| 0 <= k < t1.len() && t1[k].tier == tier && t1[k].detail == detail
                        && lists_code(t1[k].codes@, e.code@) {
                    let k = choose|k: int| 0 <= k < t1.len() && t1[k].tier == tier && t1[k].detail == detail
                        && lists_code(t1[k].codes@, e.code@);
                    assert(k < i);
                    assert(t0[k] == t1[k]);
                }
            }
        }
        i = i + 1;
    }
    proof {
        if i == conditions@.len() {
            assert(conditions@.take(i as int) =~= conditions@);
        } else {
            assert(allowed);
            let t = conditions@.take(i as int);
            if !lists_code(codes@, e.code@) {
                let k = choose|k: int| 0 <= k < t.len() && t[k].tier == tier && t[k].detail == detail
                    && lists_code(t[k].codes@, e.code@);
                assert(t[k] == conditions@[k]);
            }
        }
    }
    if !allowed {
        return Err(rule("InvalidEnchantItem"));
    }
    let mut slot: i64 = 1;
    while slot <= 3
        invariant
            1 <= slot <= 4,
            enchant_slot_of(e.option_lists@, 1) == enchant_slot_of(e.option_lists@, slot as int),
            *item == Some(*e),
            *own == Some(*codes),
            enchantable(codes@, tier, detail, conditions@, e.code@),
        decreases 4 - slot,
    {
        if (slot as usize) <= e.option_lists.len() && e.option_lists[(slot - 1) as usize].len() > 0 {
            let list = &e.option_lists[(slot - 1) as usize];
            let mut out: Vec<i64> = Vec::new();
            let mut j: usize = 0;
            while j < list.len()
                invariant
                    j <= list@.len(),
                    forall|x: i64| out@.contains(x) <==> list@.take(j as int).contains(Some(x)),
                decreases list@.len() - j,
            {
                let ghost before = out@;
                proof {
                    let t0 = list@.take(j as int);
                    let t1 = list@.take(j + 1);
                    assert(t1 =~= t0.push(list@[j as int]));
                }
                match list[j] {
                    Some(x) => { out.push(x); },
                    None => {},
                }
                proof {
                    let t0 = list@.take(j as int);
                    let t1 = list@.take(j + 1);
                    assert forall|x: i64| out@.contains(x) <==> t1.contains(Some(x)) by {
                        if out@.contains(x) {
                            let k = choose|k: int| 0 <= k < out@.len() && out@[k] == x;
                            if k < before.len() {
                                assert(before[k] == x);
                                assert(before.contains(x));
                                let m = choose|m: int| 0 <= m < t0.len() && t0[m] == Some(x);
                                assert(t1[m] == Some(x));
                            } else {
                                assert(t1[j as int] == Some(x));
                            }
                        }
                        if t1.contains(Some(x)) {
                            let m = choose|m: int| 0 <= m < t1.len() && t1[m] == Some(x);
                            if m < j {
                                assert(t0[m] == Some(x));
                                assert(before.contains(x));
                                let k = choose|k: int| 0 <= k < before.len() && before[k] == x;
                                assert(out@[k] == x);
                            } else {
                                assert(out@[out@.len() - 1] == x);
                            }
                        }
                    }
                }
                j = j + 1;
            }
            proof {
                assert(list@.take(list@.len() as int) =~= list@);
            }
            return Ok((slot, out));
        }
        slot = slot + 1;
    }
    Err(rule("InvalidEnchantItem"))
}

} // verus!

verus! {

/// One of the five drops of an equipment break row: a count drawn from `min..=max` (none
/// when `max` is not positive), plus two bonus counts each given with its rate in
/// thousandths.
pub struct BreakDrop {
    pub item: i64,
    pub min: i64,
    pub max: i64,
    pub rate1: i64,
    pub count1: i64,
    pub rate2: i64,
    pub count2: i64,
}

/// A row of the equipment break table.
pub struct BreakRow {
    pub tier: i64,
    pub detail: i64,
    pub set_index: i64,
    pub item: i64,
    pub star: i64,
    pub drops: Vec<BreakDrop>,
}

/// What the equipment table says of the item broken.
pub struct BreakItem {
    pub tier: i64,
    pub detail: i64,
    pub set_index: i64,
}

/// The first row, from `k` on, of the set of the item broken.
pub open spec fn set_row(rows: Seq<BreakRow>, m: BreakItem, k: int) -> Option<int>
    decreases rows.len() - k,
{
    if k < 0 || k >= rows.len() {
        None
    } else if rows[k].tier == m.tier && rows[k].detail == m.detail && rows[k].set_index == m.set_index {
        Some(k)
    } else {
        set_row(rows, m, k + 1)
    }
}

/// The first row, from `k` on, made for item `item`.
pub open spec fn item_row(rows: Seq<BreakRow>, item: i64, k: int) -> Option<int>
    decreases rows.len() - k,
{
    if k < 0 || k >= rows.len() {
        None
    } else if rows[k].item == item {
        Some(k)
    } else {
        item_row(rows, item, k + 1)
    }
}

/// True when row `r` is a general row for the item broken at `star` stars: same tier and
/// detail, no set, no item, and made for no more stars.
pub open spec fn general_row(r: BreakRow, m: BreakItem, star: i64) -> bool {
    r.tier == m.tier && r.detail == m.detail && r.set_index == 0 && r.item == 0 && r.star <= star
}

/// The general row with the most stars among the first `n` rows (the last such one).
pub open spec fn best_general(rows: Seq<BreakRow>, m: BreakItem, star: i64, n: int) -> Option<int>
    decreases n,
{
    if n <= 0 {
        None
    } else {
        let best = best_general(rows, m, star, n - 1);
        if general_row(rows[n - 1], m, star) && (best is None || rows[n - 1].star >= rows[best->0].star) {
            Some(n - 1)
        } else {
            best
        }
    }
}

/// The break row of an item: the row of its set when it belongs to one; else the row made
/// for it, or the general row with the most stars it reaches.
pub open spec fn break_row_of(rows: Seq<BreakRow>, m: BreakItem, item: i64, star: i64) -> Option<int> {
    if m.set_index > 0 {
        set_row(rows, m, 0)
    } else {
        match item_row(rows, item, 0) {
            Some(k) => Some(k),
            None => best_general(rows, m, star, rows.len() as int),
        }
    }
}

proof fn lemma_best_general_bounds(rows: Seq<BreakRow>, m: BreakItem, star: i64, n: int)
    requires
        0 <= n <= rows.len(),
    ensures
        best_general(rows, m, star, n) matches Some(k) ==> 0 <= k < n,
    decreases n,
{
    if n > 0 {
        lemma_best_general_bounds(rows, m, star, n - 1);
    }
}

/// Finds the break row of an item; see `break_row_of`. Refused with `ItemDataNotFound`
/// when there is none.
pub fn break_row(rows: &Vec<BreakRow>, m: &BreakItem, item: i64, star: i64) -> (r: Result<usize, ServerError>)
    ensures
        match break_row_of(rows@, *m, item, star) {
            Some(k) => r is Ok && r->Ok_0 as int == k,
            None => r is Err && is_rule(r->Err_0, "ItemDataNotFound"@),
        },
{
    let n = rows.len();
    if m.set_index > 0 {
        let mut k: usize = 0;
        while k < n
            invariant
                n == rows@.len(),
                k <= n,
                set_row(rows@, *m, 0) == set_row(rows@, *m, k as int),
                m.set_index > 0,
            decreases n - k,
        {
            if rows[k].tier == m.tier && rows[k].detail == m.detail && rows[k].set_index == m.set_index {
                return Ok(k);
            }
            k = k + 1;
        }
        return Err(rule("ItemDataNotFound"));
    }
    let mut k: usize = 0;
    while k < n
        invariant
            n == rows@.len(),
            k <= n,
            item_row(rows@, item, 0) == item_row(rows@, item, k as int),
            m.set_index <= 0,
        decreases n - k,
    {
        if rows[k].item == item {
            return Ok(k);
        }
        k = k + 1;
    }
    let mut best: Option<usize> = None;
    let mut i: usize = 0;
    while i < n
        invariant
            n == rows@.len(),
            i <= n,
            match best { Some(b) => best_general(rows@, *m, star, i as int) == Some(b as int), None => best_general(rows@, *m, star, i as int) is None },
        decreases n - i,
    {
        proof {
            lemma_best_general_bounds(rows@, *m, star, i as int);
        }
        let r = &rows[i];
        if r.tier == m.tier && r.detail == m.detail && r.set_index == 0 && r.item == 0 && r.star <= star {
            let better = match best {
                None => true,
                Some(b) => r.star >= rows[b].star,
            };
            if better {
                best = Some(i);
            }
        }
        i = i + 1;
    }
    match best {
        Some(b) => Ok(b),
        None => Err(rule("ItemDataNotFound")),
    }
}

/// Whether a draw `x` in `0..scale` hits a chance of `chance` in `scale`: below `chance`
/// taken within `0..=scale`.
pub open spec fn roll_hits(chance: i64, scale: i64, x: int) -> bool {
    x < (if chance < 0 { 0 } else if chance > scale { scale as int } else { chance as int })
}

/// Whether draw `x` hits a chance of `chance` in `scale`.
pub fn roll_with(chance: i64, scale: i64, x: i64) -> (r: bool)
    requires
        scale > 0,
    ensures
        r == roll_hits(chance, scale, x as int),
{
    let c = if chance < 0 { 0 } else if chance > scale { scale } else { chance };
    x < c
}

/// Draws a chance of `chance` in `scale`: a draw in `0..scale`, judged by `roll_with`.
pub fn roll(chance: i64, scale: i64) -> (r: bool)
    requires
        scale > 0,
    ensures
        exists|x: int| 0 <= x < scale && r == #[trigger] roll_hits(chance, scale, x),
        chance <= 0 ==> !r,
        chance >= scale ==> r,
{
    let x = crate::dice::random_below(scale);
    let r = roll_with(chance, scale, x);
    proof {
        assert(r == roll_hits(chance, scale, x as int));
    }
    r
}

/// The bound on a drop's numbers that keeps their sum within `i64`.
pub open spec fn drop_limit() -> int {
    0x1000_0000_0000_0000
}

/// The count of one drop of a break for base count `base` (used when the drop has a range)
/// and the bonus draws `x1` and `x2` in `0..1000`: the base plus each bonus whose draw hits
/// its rate in thousandths.
pub open spec fn drop_count_of(d: BreakDrop, base: int, x1: int, x2: int) -> int {
    (if d.max > 0 { base } else { 0 })
        + (if roll_hits(d.rate1, 1000, x1) { d.count1 as int } else { 0 })
        + (if roll_hits(d.rate2, 1000, x2) { d.count2 as int } else { 0 })
}

/// True when a drop's numbers are small enough to add up within `i64`.
pub open spec fn drop_fits(d: BreakDrop) -> bool {
    &&& d.max > 0 ==> d.min <= d.max
    &&& -drop_limit() <= d.min <= drop_limit()
    &&& -drop_limit() <= d.max <= drop_limit()
    &&& -drop_limit() <= d.count1 <= drop_limit()
    &&& -drop_limit() <= d.count2 <= drop_limit()
}

/// The count of one drop of a break with the given base count and bonus draws, as
/// `drop_count_of` says.
pub fn break_drop_with(d: &BreakDrop, base: i64, x1: i64, x2: i64) -> (r: i64)
    requires
        drop_fits(*d),
        d.max > 0 ==> d.min <= base <= d.max,
    ensures
        r == drop_count_of(*d, base as int, x1 as int, x2 as int),
{
    let b0: i64 = if d.max > 0 { base } else { 0 };
    let b1: i64 = if roll_with(d.rate1, 1000, x1) { d.count1 } else { 0 };
    let b2: i64 = if roll_with(d.rate2, 1000, x2) { d.count2 } else { 0 };
    b0 + b1 + b2
}

/// Draws the count of one drop of a break: a base count in the drop's range (when it has
/// one) and a draw in `0..1000` for each bonus, counted as `break_drop_with` does.
pub fn break_drop_count(d: &BreakDrop) -> (r: i64)
    requires
        drop_fits(*d),
    ensures
        exists|base: int, x1: int, x2: int| #![trigger drop_count_of(*d, base, x1, x2)]
            (d.max > 0 ==> d.min <= base <= d.max) && 0 <= x1 < 1000 && 0 <= x2 < 1000
            && r == drop_count_of(*d, base, x1, x2),
{
    let base: i64 = if d.max > 0 { crate::dice::random_between(d.min, d.max) } else { 0 };
    let x1 = crate::dice::random_below(1000);
    let x2 = crate::dice::random_below(1000);
    let r = break_drop_with(d, base, x1, x2);
    proof {
        assert(r == drop_count_of(*d, base as int, x1 as int, x2 as int));
    }
    r
}

} // verus!
