//! Transcendence skill pages: buying, applying, resetting and learning skills on them.
use vstd::prelude::*;
use crate::error::{rule, is_rule, ServerError};
use crate::forms::Request;
use crate::lists::{distinct, json_int_array, short_list, short_list_of, int_array};
use crate::text::{int_text, push_int};
use vstd::string::StrSliceExecFns;

verus! {

/// A hero's transcendence state.
pub struct TranscendHero {
    pub transcended: i64,
    pub apply_skill_page: i64,
    pub limit_break_level: i64,
    pub transcend_point: i64,
    /// The stored text of each page, by page number (entry 0 unused); an absent or empty
    /// text is a page not bought.
    pub pages: Vec<String>,
}

/// The hero's table row: for each tier (by number), the skills a position holds and the
/// points it costs, and the points each transcendence grants.
pub struct TranscendTable {
    pub skills: Vec<Vec<i64>>,
    pub skill_points: Vec<Vec<i64>>,
    pub points_per_transcend: Vec<i64>,
    pub max_pages: i64,
    /// The gem price of each page, by page number; 0 for a page that cannot be bought.
    pub page_gems: Vec<i64>,
    pub reset_gold: i64,
    /// The extra points of each limit-break level reached: `(level, points)`.
    pub limit_break_points: Vec<(i64, i64)>,
}

/// Which page operation a request asks for.
pub enum TranscendAction {
    BuyPage,
    ApplyPage,
    /// Either reset endpoint: clears the page.
    Reset,
    /// Learns one skill given by code and skill index.
    LearnOne,
    /// Learns a list of `(code, 1)` pairs.
    LearnPage,
}

/// A change to a page, in mathematical terms.
pub enum ChangeModel {
    BuyPage(int, int),
    Apply(int),
    Reset(int, int),
    Learn(int, Seq<i64>),
}

/// A change to a hero's transcendence pages.
pub enum TranscendChange {
    /// Buys page `page` for `gem` gems; the page starts empty.
    BuyPage { page: i64, gem: i64 },
    /// Makes `page` the applied page.
    Apply { page: i64 },
    /// Clears `page` for `gold` gold.
    Reset { page: i64, gold: i64 },
    /// Stores `choices` on `page`, written as `text`.
    Learn { page: i64, choices: Vec<i64>, text: String },
}

impl TranscendChange {
    /// The change in mathematical terms.
    pub open spec fn model(self) -> ChangeModel {
        match self {
            TranscendChange::BuyPage { page, gem } => ChangeModel::BuyPage(page as int, gem as int),
            TranscendChange::Apply { page } => ChangeModel::Apply(page as int),
            TranscendChange::Reset { page, gold } => ChangeModel::Reset(page as int, gold as int),
            TranscendChange::Learn { page, choices, text } => ChangeModel::Learn(page as int, choices@),
        }
    }
}

/// Entry `k` of `s`, or the empty list.
pub open spec fn row_at(s: Seq<Seq<i64>>, k: int) -> Seq<i64> {
    if 0 <= k < s.len() { s[k] } else { Seq::empty() }
}

/// The text of page `p`, or the empty text.
pub open spec fn page_text(pages: Seq<String>, p: int) -> Seq<char> {
    if 0 <= p < pages.len() { pages[p]@ } else { Seq::empty() }
}

/// Entry `k` of `s`, or 0.
pub open spec fn value_at(s: Seq<i64>, k: int) -> int {
    if 0 <= k < s.len() { s[k] as int } else { 0 }
}

/// `v` with `code` added at the end unless it is already there.
pub open spec fn add_code(v: Seq<i64>, code: i64) -> Seq<i64> {
    if v.contains(code) { v } else { v.push(code) }
}

/// `old` with the skill of each of the first `k` pairs of `raw` added.
pub open spec fn add_pairs(old: Seq<i64>, raw: Seq<i64>, k: int) -> Seq<i64>
    decreases k,
{
    if k <= 0 {
        old
    } else {
        add_code(add_pairs(old, raw, k - 1), pair_skill(raw, k - 1))
    }
}

/// The skill of pair `i`.
pub open spec fn pair_skill(raw: Seq<i64>, i: int) -> i64 {
    raw[2 * i]
}

/// The flag of pair `i`.
pub open spec fn pair_flag(raw: Seq<i64>, i: int) -> i64 {
    raw[2 * i + 1]
}

/// True when every pair of `raw` is `(skill, 1)` and no skill occurs in two pairs.
pub open spec fn pairs_ok(raw: Seq<i64>) -> bool {
    &&& raw.len() % 2 == 0
    &&& forall|i: int| 0 <= i < raw.len() / 2 ==> #[trigger] pair_flag(raw, i) == 1
    &&& forall|i: int, j: int| 0 <= i < j < raw.len() / 2 ==> #[trigger] pair_skill(raw, i) != #[trigger] pair_skill(raw, j)
}

/// The tier-3 groups (position halves) used by the codes of `ch`.
pub open spec fn tier3_groups(ch: Seq<i64>) -> Set<int>
    decreases ch.len(),
{
    if ch.len() == 0 {
        Set::empty()
    } else {
        let g = tier3_groups(ch.drop_last());
        let c = ch.last();
        if c >= 0 && c / 10 == 3 { g.insert((c % 10) / 2) } else { g }
    }
}

/// Why one code cannot be learned by a hero transcended `t` times, given the tier-3 groups
/// already used: a tier outside `1..=t`, a position the tier lacks or has no cost for, or a
/// second skill of a tier-3 group.
pub open spec fn code_error(c: i64, t: int, skills: Seq<Seq<i64>>, points: Seq<Seq<i64>>, groups: Set<int>) -> Option<Seq<char>> {
    if c < 0 || c / 10 < 1 || c / 10 > t {
        Some("NotEnoughTranscend"@)
    } else if c % 10 >= row_at(skills, c / 10).len() {
        Some("SkillNotFound"@)
    } else if c / 10 == 3 && groups.contains((c % 10) / 2) {
        Some("SkillTypeAlreadyLearned"@)
    } else if c % 10 >= row_at(points, c / 10).len() {
        Some("SkillNotFound"@)
    } else {
        None
    }
}

/// The first reason, in order, why a code of `ch` cannot be learned.
pub open spec fn codes_error(ch: Seq<i64>, t: int, skills: Seq<Seq<i64>>, points: Seq<Seq<i64>>) -> Option<Seq<char>>
    decreases ch.len(),
{
    if ch.len() == 0 {
        None
    } else {
        match codes_error(ch.drop_last(), t, skills, points) {
            Some(e) => Some(e),
            None => code_error(ch.last(), t, skills, points, tier3_groups(ch.drop_last())),
        }
    }
}

/// The skill points the codes of `ch` cost.
pub open spec fn points_spent(ch: Seq<i64>, points: Seq<Seq<i64>>) -> int
    decreases ch.len(),
{
    if ch.len() == 0 {
        0
    } else {
        points_spent(ch.drop_last(), points) + value_at(row_at(points, ch.last() / 10), (ch.last() % 10) as int)
    }
}

/// The sum of the first `k` entries of `s`.
pub open spec fn first_sum(s: Seq<i64>, k: int) -> int
    decreases k,
{
    if k <= 0 || s.len() == 0 {
        0
    } else if k > s.len() {
        first_sum(s, s.len() as int)
    } else {
        first_sum(s, k - 1) + s[k - 1]
    }
}

/// The extra points of the limit-break levels up to `level`.
pub open spec fn limit_points(rows: Seq<(i64, i64)>, level: int) -> int
    decreases rows.len(),
{
    if rows.len() == 0 {
        0
    } else {
        limit_points(rows.drop_last(), level) + if rows.last().0 <= level { rows.last().1 as int } else { 0 }
    }
}

/// The JSON text of an integer list, as `serde_json` writes one: `[a,b,c]`.
pub open spec fn list_text(v: Seq<i64>) -> Seq<char>
    decreases v.len(),
{
    if v.len() == 0 {
        seq!['[', ']']
    } else {
        list_body(v) + seq![']']
    }
}

/// The text of a non-empty list without its closing bracket.
pub open spec fn list_body(v: Seq<i64>) -> Seq<char>
    decreases v.len(),
{
    if v.len() <= 1 {
        seq!['['] + int_text(if v.len() == 1 { v[0] as int } else { 0 })
    } else {
        list_body(v.drop_last()) + seq![','] + int_text(v.last() as int)
    }
}


/// The skills a request would leave on a page holding `old`, or why the request is refused.
pub open spec fn learned_choices(act: TranscendAction, req: Request, old: Seq<i64>, tab: TranscendTable) -> Result<Seq<i64>, Seq<char>> {
    match act {
        TranscendAction::LearnOne => match req.number_of("TranscendSkill"@, 0i64) {
            None => Err("InvalidValue"@),
            Some(code) => match req.number_of("SkillIndex"@, 0i64) {
                None => Err("InvalidValue"@),
                Some(skill) => {
                    let row = row_at(tab.skills@.map_values(|v: Vec<i64>| v@), code / 10);
                    if code >= 0 && code % 10 < row.len() && row[(code % 10) as int] == skill {
                        Ok(old.push(code))
                    } else {
                        Err("SkillNotFound"@)
                    }
                },
            },
        },
        _ => match short_list_of(req, "TranscendSkills"@) {
            None => Err("InvalidValue"@),
            Some(raw) => if !pairs_ok(raw) {
                Err("InvalidAction"@)
            } else {
                Ok(add_pairs(old, raw, (raw.len() / 2) as int))
            },
        },
    }
}

/// The page a request names: field `PageIndex`, by default the applied page (at least 1).
pub open spec fn requested_page(req: Request, h: TranscendHero) -> Option<i64> {
    req.number_of("PageIndex"@, if h.apply_skill_page > 1 { h.apply_skill_page } else { 1 })
}

/// What learning on `page`, which holds `old`, does: the skills kept must be distinct,
/// keep every skill already there, be learnable, and cost no more than the hero's points.
pub open spec fn learn_outcome(act: TranscendAction, req: Request, h: TranscendHero, tab: TranscendTable, page: int, old: Seq<i64>) -> Result<ChangeModel, Seq<char>> {
    let t = h.transcended as int;
    let skills = tab.skills@.map_values(|v: Vec<i64>| v@);
    let points = tab.skill_points@.map_values(|v: Vec<i64>| v@);
    match learned_choices(act, req, old, tab) {
        Err(e) => Err(e),
        Ok(ch) => if !distinct(ch) {
            Err("SkillAlreadyLearned"@)
        } else if exists|i: int| 0 <= i < old.len() && !ch.contains(#[trigger] old[i]) {
            Err("InvalidAction"@)
        } else {
            match codes_error(ch, t, skills, points) {
                Some(e) => Err(e),
                None => if points_spent(ch, points) > first_sum(tab.points_per_transcend@, t)
                    + limit_points(tab.limit_break_points@, h.limit_break_level as int) + h.transcend_point {
                    Err("NotEnoughSkillPoint"@)
                } else {
                    Ok(ChangeModel::Learn(page, ch))
                },
            }
        },
    }
}

/// What a request other than buying does to `page`, whose text is `text`.
pub open spec fn page_outcome(act: TranscendAction, req: Request, h: TranscendHero, tab: TranscendTable, page: int, text: Seq<char>) -> Result<ChangeModel, Seq<char>> {
    if text.len() == 0 && page != 1 {
        Err("NotOpenPage"@)
    } else if act is ApplyPage {
        Ok(ChangeModel::Apply(page))
    } else {
        let stored = if text.len() == 0 { Some(Seq::<i64>::empty()) } else { json_int_array(text) };
        match stored {
            None => Err("InvalidAction"@),
            Some(old) => if act is Reset {
                if old.len() == 0 { Err("SkillNotLearned"@) } else { Ok(ChangeModel::Reset(page, tab.reset_gold as int)) }
            } else {
                learn_outcome(act, req, h, tab, page, old)
            },
        }
    }
}

/// What a page request does to a hero transcended at least once, or why it is refused.
pub open spec fn transcend_outcome(act: TranscendAction, req: Request, h: TranscendHero, tab: TranscendTable) -> Result<ChangeModel, Seq<char>> {
    if h.transcended < 1 {
        Err("NotHeroTanscended"@)
    } else {
        match requested_page(req, h) {
            None => Err("InvalidValue"@),
            Some(page) => if !(1 <= page <= tab.max_pages) {
                Err("PageNotFound"@)
            } else {
                let text = page_text(h.pages@, page as int);
                match act {
                    TranscendAction::BuyPage => if page == 1 || text.len() > 0 {
                        Err("AlreadyHavePage"@)
                    } else {
                        let cost = value_at(tab.page_gems@, page as int);
                        if cost <= 0 {
                            Err("InvalidPrice"@)
                        } else {
                            match req.number_of("BuyGem"@, -1i64) {
                                None => Err("InvalidValue"@),
                                Some(g) => if g != cost { Err("InvalidPrice"@) } else { Ok(ChangeModel::BuyPage(page as int, cost)) },
                            }
                        }
                    },
                    _ => page_outcome(act, req, h, tab, page as int, text),
                }
            },
        }
    }
}

} // verus!

verus! {

fn row_of(rows: &Vec<Vec<i64>>, k: i64) -> (r: Option<&Vec<i64>>)
    ensures
        0 <= k < rows@.len() ==> r is Some && r->0@ == rows@[k as int]@,
        !(0 <= k < rows@.len()) ==> r is None,
{
    if k >= 0 && (k as u64) < rows.len() as u64 {
        Some(&rows[k as usize])
    } else {
        None
    }
}

fn row_len(rows: &Vec<Vec<i64>>, k: i64) -> (r: usize)
    ensures
        r == row_at(rows@.map_values(|v: Vec<i64>| v@), k as int).len(),
{
    match row_of(rows, k) {
        Some(v) => v.len(),
        None => 0,
    }
}

fn pairs_valid(raw: &Vec<i64>) -> (r: bool)
    ensures
        r == pairs_ok(raw@),
{
    if raw.len() % 2 != 0 {
        return false;
    }
    let n = raw.len() / 2;
    let mut i: usize = 0;
    while i < n
        invariant
            n == raw@.len() / 2,
            raw@.len() % 2 == 0,
            2 * n == raw@.len(),
            raw@.len() <= usize::MAX,
            i <= n,
            forall|a: int| 0 <= a < i ==> #[trigger] pair_flag(raw@, a) == 1,
            forall|a: int, b: int| 0 <= a < b < n && a < i ==> #[trigger] pair_skill(raw@, a) != #[trigger] pair_skill(raw@, b),
        decreases n - i,
    {
        if raw[2 * i + 1] != 1 {
            proof {
                assert(pair_flag(raw@, i as int) != 1);
            }
            return false;
        }
        let mut j = i + 1;
        while j < n
            invariant
                n == raw@.len() / 2,
                raw@.len() % 2 == 0,
                2 * n == raw@.len(),
                raw@.len() <= usize::MAX,
                i < n,
                i + 1 <= j <= n,
                forall|b: int| i < b < j ==> pair_skill(raw@, i as int) != #[trigger] pair_skill(raw@, b),
            decreases n - j,
        {
            if raw[2 * i] == raw[2 * j] {
                proof {
                    assert(pair_skill(raw@, i as int) == pair_skill(raw@, j as int));
                }
                return false;
            }
            j = j + 1;
        }
        i = i + 1;
    }
    true
}

fn contains_code(v: &Vec<i64>, c: i64) -> (r: bool)
    ensures
        r == v@.contains(c),
{
    let mut i: usize = 0;
    while i < v.len()
        invariant
            i <= v@.len(),
            forall|k: int| 0 <= k < i ==> v@[k] != c,
        decreases v@.len() - i,
    {
        if v[i] == c {
            proof {
                assert(v@[i as int] == c);
            }
            return true;
        }
        i = i + 1;
    }
    false
}

fn add_pairs_to(old: Vec<i64>, raw: &Vec<i64>) -> (r: Vec<i64>)
    requires
        raw@.len() % 2 == 0,
    ensures
        r@ == add_pairs(old@, raw@, (raw@.len() / 2) as int),
{
    let mut v = old;
    let n = raw.len() / 2;
    let mut k: usize = 0;
    while k < n
        invariant
            n == raw@.len() / 2,
            raw@.len() % 2 == 0,
            2 * n == raw@.len(),
            raw@.len() <= usize::MAX,
            k <= n,
            v@ == add_pairs(old@, raw@, k as int),
        decreases n - k,
    {
        let code = raw[2 * k];
        if !contains_code(&v, code) {
            v.push(code);
        }
        k = k + 1;
    }
    v
}

fn first_sum_of(s: &Vec<i64>, k: i64) -> (r: i128)
    requires
        k >= 0,
    ensures
        r == first_sum(s@, k as int),
{
    let stop: usize = if (k as u64) < (s.len() as u64) { k as usize } else { s.len() };
    let mut acc: i128 = 0;
    let mut i: usize = 0;
    proof {
        assert(first_sum(s@, k as int) == first_sum(s@, stop as int));
    }
    while i < stop
        invariant
            stop <= s@.len(),
            i <= stop,
            acc == first_sum(s@, i as int),
            -(i as int) * 0x8000_0000_0000_0000 <= acc <= (i as int) * 0x8000_0000_0000_0000,
        decreases stop - i,
    {
        acc = acc + s[i] as i128;
        i = i + 1;
    }
    acc
}

fn limit_points_of(rows: &Vec<(i64, i64)>, level: i64) -> (r: i128)
    ensures
        r == limit_points(rows@, level as int),
{
    let mut acc: i128 = 0;
    let mut i: usize = 0;
    while i < rows.len()
        invariant
            i <= rows@.len(),
            acc == limit_points(rows@.take(i as int), level as int),
            -(i as int) * 0x8000_0000_0000_0000 <= acc <= (i as int) * 0x8000_0000_0000_0000,
        decreases rows@.len() - i,
    {
        proof {
            assert(rows@.take(i + 1).drop_last() =~= rows@.take(i as int));
        }
        if rows[i].0 <= level {
            acc = acc + rows[i].1 as i128;
        }
        i = i + 1;
    }
    proof {
        assert(rows@.take(rows@.len() as int) =~= rows@);
    }
    acc
}

/// Writes an integer list as JSON text.
pub fn list_text_of(v: &Vec<i64>) -> (r: String)
    ensures
        r@ == list_text(v@),
{
    proof {
        reveal_strlit("[");
        reveal_strlit("]");
        reveal_strlit("[]");
        reveal_strlit(",");
    }
    if v.len() == 0 {
        let r = String::from_str("[]");
        proof {
            assert(r@ =~= seq!['[', ']']);
        }
        return r;
    }
    let mut out = String::from_str("[");
    push_int(&mut out, v[0]);
    let mut i: usize = 1;
    proof {
        assert(v@.take(1).len() == 1);
        assert(out@ =~= seq!['['] + int_text(v@.take(1)[0] as int));
    }
    while i < v.len()
        invariant
            1 <= i <= v@.len(),
            out@ == list_body(v@.take(i as int)),
        decreases v@.len() - i,
    {
        proof {
            reveal_strlit(",");
            assert(v@.take(i + 1).drop_last() =~= v@.take(i as int));
            assert(v@.take(i + 1).last() == v@[i as int]);
        }
        out.append(",");
        push_int(&mut out, v[i]);
        i = i + 1;
    }
    out.append("]");
    proof {
        assert(v@.take(v@.len() as int) =~= v@);
    }
    out
}

} // verus!

verus! {

proof fn lemma_codes_error_sticks(ch: Seq<i64>, k: int, t: int, skills: Seq<Seq<i64>>, points: Seq<Seq<i64>>)
    requires
        0 <= k <= ch.len(),
        codes_error(ch.take(k), t, skills, points) is Some,
    ensures
        codes_error(ch, t, skills, points) == codes_error(ch.take(k), t, skills, points),
    decreases ch.len() - k,
{
    if k < ch.len() {
        assert(ch.take(k + 1).drop_last() =~= ch.take(k));
        assert(codes_error(ch.take(k + 1), t, skills, points) == codes_error(ch.take(k), t, skills, points));
        lemma_codes_error_sticks(ch, k + 1, t, skills, points);
    } else {
        assert(ch.take(k) =~= ch);
    }
}

fn codes_check(ch: &Vec<i64>, t: i64, skills: &Vec<Vec<i64>>, points: &Vec<Vec<i64>>) -> (r: Result<i128, &'static str>)
    ensures
        match codes_error(ch@, t as int, skills@.map_values(|v: Vec<i64>| v@), points@.map_values(|v: Vec<i64>| v@)) {
            Some(e) => r is Err && r->Err_0@ == e,
            None => r is Ok && r->Ok_0 == points_spent(ch@, points@.map_values(|v: Vec<i64>| v@)),
        },
{
    let ghost sk = skills@.map_values(|v: Vec<i64>| v@);
    let ghost pt = points@.map_values(|v: Vec<i64>| v@);
    let mut groups: Vec<i64> = Vec::new();
    let mut spent: i128 = 0;
    let mut i: usize = 0;
    while i < ch.len()
        invariant
            i <= ch@.len(),
            sk == skills@.map_values(|v: Vec<i64>| v@),
            pt == points@.map_values(|v: Vec<i64>| v@),
            codes_error(ch@.take(i as int), t as int, sk, pt) is None,
            forall|x: int| #[trigger] tier3_groups(ch@.take(i as int)).contains(x) ==> 0 <= x <= 4,
            forall|g: i64| #[trigger] groups@.contains(g) <==> tier3_groups(ch@.take(i as int)).contains(g as int),
            spent == points_spent(ch@.take(i as int), pt),
            -(i as int) * 0x8000_0000_0000_0000 <= spent <= (i as int) * 0x8000_0000_0000_0000,
        decreases ch@.len() - i,
    {
        let ghost pre = ch@.take(i as int);
        proof {
            assert(ch@.take(i + 1).drop_last() =~= pre);
            assert(ch@.take(i + 1).last() == ch@[i as int]);
        }
        let c = ch[i];
        if c < 0 || c / 10 < 1 || c / 10 > t {
            proof {
                lemma_codes_error_sticks(ch@, i + 1, t as int, sk, pt);
            }
            return Err("NotEnoughTranscend");
        }
        let tier = c / 10;
        let pos = c % 10;
        if (pos as u64) >= (row_len(skills, tier) as u64) {
            proof {
                lemma_codes_error_sticks(ch@, i + 1, t as int, sk, pt);
            }
            return Err("SkillNotFound");
        }
        let group = pos / 2;
        if tier == 3 && contains_code(&groups, group) {
            proof {
                assert(groups@.contains(group));
                assert(tier3_groups(pre).contains(group as int));
                lemma_codes_error_sticks(ch@, i + 1, t as int, sk, pt);
            }
            return Err("SkillTypeAlreadyLearned");
        }
        let cost: i64 = match row_of(points, tier) {
            Some(row) => {
                if (pos as usize) < row.len() {
                    row[pos as usize]
                } else {
                    proof {
                        lemma_codes_error_sticks(ch@, i + 1, t as int, sk, pt);
                    }
                    return Err("SkillNotFound");
                }
            },
            None => {
                proof {
                    lemma_codes_error_sticks(ch@, i + 1, t as int, sk, pt);
                }
                return Err("SkillNotFound");
            },
        };
        proof {
            if tier == 3 {
                assert(!groups@.contains(group));
                assert(!tier3_groups(pre).contains(group as int));
            }
        }
        let ghost before = groups@;
        if tier == 3 {
            groups.push(group);
        }
        spent = spent + cost as i128;
        proof {
            let now = ch@.take(i + 1);
            assert(now.drop_last() =~= pre);
            assert forall|x: int| #[trigger] tier3_groups(now).contains(x) implies 0 <= x <= 4 by {
                if tier == 3 && x == group as int {
                } else {
                    assert(tier3_groups(pre).contains(x));
                }
            }
            assert forall|g: i64| #[trigger] groups@.contains(g) <==> tier3_groups(now).contains(g as int) by {
                if tier == 3 {
                    if groups@.contains(g) {
                        let k = choose|k: int| 0 <= k < groups@.len() && groups@[k] == g;
                        if k < groups@.len() - 1 {
                            assert(before[k] == groups@[k]);
                            assert(before.contains(g));
                        }
                    }
                    if tier3_groups(now).contains(g as int) && g != group {
                        assert(tier3_groups(pre).contains(g as int));
                        assert(before.contains(g));
                        let k = choose|k: int| 0 <= k < before.len() && before[k] == g;
                        assert(groups@[k] == g);
                    }
                    if g == group {
                        assert(groups@[groups@.len() - 1] == g);
                    }
                } else {
                    assert(groups@ == before);
                }
            }
        }
        i = i + 1;
    }
    proof {
        assert(ch@.take(ch@.len() as int) =~= ch@);
    }
    Ok(spent)
}

} // verus!

verus! {

fn page_text_of(pages: &Vec<String>, p: i64) -> (r: &str)
    ensures
        r@ == page_text(pages@, p as int),
{
    if p >= 0 && (p as u64) < (pages.len() as u64) {
        pages[p as usize].as_str()
    } else {
        proof {
            reveal_strlit("");
        }
        ""
    }
}

fn value_of(v: &Vec<i64>, k: i64) -> (r: i64)
    ensures
        r == value_at(v@, k as int),
{
    if k >= 0 && (k as u64) < (v.len() as u64) {
        v[k as usize]
    } else {
        0
    }
}

fn keeps_all(old: &Vec<i64>, ch: &Vec<i64>) -> (r: bool)
    ensures
        r == !(exists|i: int| 0 <= i < old@.len() && !ch@.contains(#[trigger] old@[i])),
{
    let mut i: usize = 0;
    while i < old.len()
        invariant
            i <= old@.len(),
            forall|k: int| 0 <= k < i ==> ch@.contains(#[trigger] old@[k]),
        decreases old@.len() - i,
    {
        if !contains_code(ch, old[i]) {
            return false;
        }
        i = i + 1;
    }
    true
}

fn learn_choices(act: &TranscendAction, req: &Request, old: Vec<i64>, tab: &TranscendTable) -> (r: Result<Vec<i64>, ServerError>)
    requires
        !(*act is BuyPage) && !(*act is ApplyPage) && !(*act is Reset),
    ensures
        match learned_choices(*act, *req, old@, *tab) {
            Ok(ch) => r is Ok && r->Ok_0@ == ch,
            Err(e) => r is Err && is_rule(r->Err_0, e),
        },
{
    match act {
        TranscendAction::LearnOne => {
            let code = req.number("TranscendSkill", 0)?;
            let skill = req.number("SkillIndex", 0)?;
            let ghost rows = tab.skills@.map_values(|v: Vec<i64>| v@);
            let found = if code >= 0 {
                match row_of(&tab.skills, code / 10) {
                    Some(row) => {
                        proof {
                            assert(rows[code / 10] == tab.skills@[code / 10]@);
                        }
                        ((code % 10) as usize) < row.len() && row[(code % 10) as usize] == skill
                    },
                    None => false,
                }
            } else {
                false
            };
            if !found {
                return Err(rule("SkillNotFound"));
            }
            let mut v = old;
            v.push(code);
            Ok(v)
        },
        _ => {
            let raw = short_list(req, "TranscendSkills")?;
            if !pairs_valid(&raw) {
                return Err(rule("InvalidAction"));
            }
            Ok(add_pairs_to(old, &raw))
        },
    }
}

/// Carries out a page request for a hero, as `transcend_outcome` says: buying a page,
/// applying it, resetting it, or learning skills on it within the hero's skill points.
pub fn transcend_skills(act: TranscendAction, req: &Request, h: &TranscendHero, tab: &TranscendTable)
    -> (r: Result<TranscendChange, ServerError>)
    requires
        h.transcended >= 1 ==> i64::MIN <= first_sum(tab.points_per_transcend@, h.transcended as int) <= i64::MAX,
        i64::MIN <= limit_points(tab.limit_break_points@, h.limit_break_level as int) <= i64::MAX,
    ensures
        match transcend_outcome(act, *req, *h, *tab) {
            Ok(m) => r is Ok && r->Ok_0.model() == m
                && (r->Ok_0 matches TranscendChange::Learn { choices, text, .. } ==> text@ == list_text(choices@)),
            Err(e) => r is Err && is_rule(r->Err_0, e),
        },
{
    let t = h.transcended;
    if t < 1 {
        return Err(rule("NotHeroTanscended"));
    }
    let default_page: i64 = if h.apply_skill_page > 1 { h.apply_skill_page } else { 1 };
    let page = req.number("PageIndex", default_page)?;
    if !(1 <= page && page <= tab.max_pages) {
        return Err(rule("PageNotFound"));
    }
    let text = page_text_of(&h.pages, page);
    match act {
        TranscendAction::BuyPage => {
            if page == 1 || text.unicode_len() > 0 {
                return Err(rule("AlreadyHavePage"));
            }
            let cost = value_of(&tab.page_gems, page);
            if cost <= 0 {
                return Err(rule("InvalidPrice"));
            }
            let gem = req.number("BuyGem", -1)?;
            if gem != cost {
                return Err(rule("InvalidPrice"));
            }
            return Ok(TranscendChange::BuyPage { page, gem: cost });
        },
        _ => {},
    }
    let empty = text.unicode_len() == 0;
    if empty && page != 1 {
        return Err(rule("NotOpenPage"));
    }
    if let TranscendAction::ApplyPage = act {
        return Ok(TranscendChange::Apply { page });
    }
    let old: Vec<i64> = if empty { Vec::new() } else { int_array(text, "InvalidAction")? };
    proof {
        let stored = if text@.len() == 0 { Some(Seq::<i64>::empty()) } else { json_int_array(text@) };
        assert(stored == Some(old@));
    }
    if let TranscendAction::Reset = act {
        if old.len() == 0 {
            return Err(rule("SkillNotLearned"));
        }
        return Ok(TranscendChange::Reset { page, gold: tab.reset_gold });
    }
    let copy = old.clone();
    proof {
        assert(copy@ =~= old@);
    }
    let ch = learn_choices(&act, req, copy, tab)?;
    if !crate::lists::is_distinct(&ch) {
        return Err(rule("SkillAlreadyLearned"));
    }
    proof {
        assert(learned_choices(act, *req, old@, *tab) == Ok::<Seq<i64>, Seq<char>>(ch@));
        assert(distinct(ch@));
    }
    if !keeps_all(&old, &ch) {
        proof {
            assert(exists|i: int| 0 <= i < old@.len() && !ch@.contains(#[trigger] old@[i]));
            assert(requested_page(*req, *h) == Some(page));
            assert(1 <= page <= tab.max_pages);
            assert(!(act is BuyPage));
            assert(!(act is ApplyPage));
            assert(!(act is Reset));
            assert(page_text(h.pages@, page as int) == text@);
            assert(learn_outcome(act, *req, *h, *tab, page as int, old@) == Err::<ChangeModel, Seq<char>>("InvalidAction"@));
            assert(page_outcome(act, *req, *h, *tab, page as int, text@) == Err::<ChangeModel, Seq<char>>("InvalidAction"@));
            assert(transcend_outcome(act, *req, *h, *tab) == Err::<ChangeModel, Seq<char>>("InvalidAction"@));
        }
        return Err(rule("InvalidAction"));
    }
    proof {
        assert(!(exists|i: int| 0 <= i < old@.len() && !ch@.contains(#[trigger] old@[i])));
        assert(requested_page(*req, *h) == Some(page));
        assert(page_text(h.pages@, page as int) == text@);
        assert(!(act is BuyPage) && !(act is ApplyPage) && !(act is Reset));
        assert(transcend_outcome(act, *req, *h, *tab) == page_outcome(act, *req, *h, *tab, page as int, text@));
        assert(page_outcome(act, *req, *h, *tab, page as int, text@) == learn_outcome(act, *req, *h, *tab, page as int, old@));
    }
    let spent = match codes_check(&ch, t, &tab.skills, &tab.skill_points) {
        Ok(s) => s,
        Err(e) => {
            proof {
                assert(learn_outcome(act, *req, *h, *tab, page as int, old@) == Err::<ChangeModel, Seq<char>>(e@));
            }
            return Err(rule(e));
        },
    };
    let total = first_sum_of(&tab.points_per_transcend, t);
    let extra = limit_points_of(&tab.limit_break_points, h.limit_break_level);
    if spent > total + extra + h.transcend_point as i128 {
        proof {
            assert(learn_outcome(act, *req, *h, *tab, page as int, old@) == Err::<ChangeModel, Seq<char>>("NotEnoughSkillPoint"@));
        }
        return Err(rule("NotEnoughSkillPoint"));
    }
    proof {
        assert(learn_outcome(act, *req, *h, *tab, page as int, old@) == Ok::<ChangeModel, Seq<char>>(ChangeModel::Learn(page as int, ch@)));
    }
    let text = list_text_of(&ch);
    Ok(TranscendChange::Learn { page, choices: ch, text })
}

} // verus!
