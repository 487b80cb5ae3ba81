//! Soul stone restoration: the restore table, the mileage reward, and drawing the stones
//! offered to choose from.
use vstd::prelude::*;
use crate::error::{rule, is_rule, ServerError};
use crate::forms::Request;
use crate::dice::random_below;

verus! {

/// Refuses to confirm a stone that is not among those offered.
pub fn confirm_soul_stone(choices: &Vec<i64>, id: i64) -> (r: Result<(), ServerError>)
    ensures
        choices@.contains(id) ==> r is Ok,
        !choices@.contains(id) ==> r is Err && is_rule(r->Err_0, "InvalidSoulStoneIndex"@),
{
    let mut i: usize = 0;
    while i < choices.len()
        invariant
            i <= choices@.len(),
            forall|k: int| 0 <= k < i ==> choices@[k] != id,
        decreases choices@.len() - i,
    {
        if choices[i] == id {
            proof {
                assert(choices@[i as int] == id);
            }
            return Ok(());
        }
        i = i + 1;
    }
    Err(rule("InvalidSoulStoneIndex"))
}

/// Finds the restore row a request names (`SoulStoneRestoreIndex`, counted from 1): a
/// restore is refused while offered stones wait for a choice (`UnconfirmedSoulStone`), and
/// for an index outside the table (`InvalidSoulStoneRestoreIndex`).
pub fn restore_row(req: &Request, pending: bool, rows: usize) -> (r: Result<usize, ServerError>)
    ensures
        pending ==> r is Err && is_rule(r->Err_0, "UnconfirmedSoulStone"@),
        !pending ==> match req.number_of("SoulStoneRestoreIndex"@, 0) {
            None => r is Err && is_rule(r->Err_0, "InvalidValue"@),
            Some(v) => if 1 <= v <= rows {
                r == Ok::<usize, ServerError>((v - 1) as usize)
            } else {
                r is Err && is_rule(r->Err_0, "InvalidSoulStoneRestoreIndex"@)
            },
        },
{
    if pending {
        return Err(rule("UnconfirmedSoulStone"));
    }
    let index = req.number("SoulStoneRestoreIndex", 0)?;
    if index < 1 || (index as u64) > (rows as u64) {
        return Err(rule("InvalidSoulStoneRestoreIndex"));
    }
    Ok((index - 1) as usize)
}

/// A player's soul stone restoration: the mileage earned, and the stones offered by the last
/// restore that still wait for a choice (none when nothing waits).
pub struct RestoreProgress {
    pub mileage: i64,
    pub choices: Vec<i64>,
}

/// True when offered stones wait for a choice.
pub open spec fn pending(choices: Seq<i64>) -> bool {
    choices.len() > 0
}

/// Why a restore is refused, with the stones `choices` waiting: while they wait
/// (`UnconfirmedSoulStone`), then as `restore_row` says; none when it goes ahead.
pub open spec fn restore_refusal(choices: Seq<i64>, req: Request, rows: int) -> Option<Seq<char>> {
    if pending(choices) {
        Some("UnconfirmedSoulStone"@)
    } else {
        match req.number_of("SoulStoneRestoreIndex"@, 0) {
            None => Some("InvalidValue"@),
            Some(v) => if 1 <= v <= rows { None } else { Some("InvalidSoulStoneRestoreIndex"@) },
        }
    }
}

/// Why confirming stone `id` is refused: when it is not among the stones waiting
/// (`InvalidSoulStoneIndex`); none when it is taken.
pub open spec fn confirm_refusal(choices: Seq<i64>, id: i64) -> Option<Seq<char>> {
    if choices.contains(id) { None } else { Some("InvalidSoulStoneIndex"@) }
}

/// The stones waiting after confirming `id`: none once a stone is taken, the same ones
/// after a refusal.
pub open spec fn after_confirm(choices: Seq<i64>, id: i64) -> Seq<i64> {
    if choices.contains(id) { Seq::empty() } else { choices }
}

impl RestoreProgress {
    /// Starts a restore: the restore row the request names, refused as `restore_refusal`
    /// says.
    pub fn restore_start(&self, req: &Request, rows: usize) -> (r: Result<usize, ServerError>)
        ensures
            match restore_refusal(self.choices@, *req, rows as int) {
                Some(e) => r is Err && is_rule(r->Err_0, e),
                None => r is Ok && r->Ok_0 == req.number_of("SoulStoneRestoreIndex"@, 0)->0 - 1,
            },
    {
        restore_row(req, self.choices.len() > 0, rows)
    }

    /// Records the stones a restore drew: they wait for a choice, and the mileage grows by
    /// one.
    pub fn offer(&mut self, choices: Vec<i64>)
        requires
            old(self).mileage < i64::MAX,
        ensures
            final(self).choices@ == choices@,
            final(self).mileage == old(self).mileage + 1,
    {
        self.choices = choices;
        self.mileage = self.mileage + 1;
    }

    /// Confirms stone `id` among those waiting: refused as `confirm_refusal` says, leaving
    /// the progress as it was; once taken, nothing waits any more.
    pub fn confirm(&mut self, id: i64) -> (r: Result<(), ServerError>)
        ensures
            match confirm_refusal(old(self).choices@, id) {
                Some(e) => r is Err && is_rule(r->Err_0, e),
                None => r is Ok,
            },
            final(self).choices@ == after_confirm(old(self).choices@, id),
            final(self).mileage == old(self).mileage,
    {
        confirm_soul_stone(&self.choices, id)?;
        self.choices = Vec::new();
        Ok(())
    }
}

/// Stones offered by a restore wait for a choice: another restore is refused
/// (`UnconfirmedSoulStone`) and so is a stone not offered (`InvalidSoulStoneIndex`), which
/// leaves them waiting; the first offered stone is taken, after which nothing waits, the
/// same stone cannot be taken again, and a restore is no longer refused for waiting stones.
pub proof fn lemma_restore_choices(choices: Seq<i64>, other: i64, req: Request, rows: int)
    requires
        choices.len() > 0,
        !choices.contains(other),
    ensures
        restore_refusal(choices, req, rows) == Some("UnconfirmedSoulStone"@),
        confirm_refusal(choices, other) == Some("InvalidSoulStoneIndex"@),
        after_confirm(choices, other) == choices,
        confirm_refusal(choices, choices[0]) is None,
        after_confirm(choices, choices[0]) == Seq::<i64>::empty(),
        confirm_refusal(after_confirm(choices, choices[0]), choices[0]) == Some("InvalidSoulStoneIndex"@),
        restore_refusal(after_confirm(choices, choices[0]), req, rows) != Some("UnconfirmedSoulStone"@),
{
    assert(choices.contains(choices[0]));
    reveal_strlit("UnconfirmedSoulStone");
    reveal_strlit("InvalidValue");
    reveal_strlit("InvalidSoulStoneRestoreIndex");
    assert("InvalidValue"@.len() != "UnconfirmedSoulStone"@.len());
    assert("InvalidSoulStoneRestoreIndex"@.len() != "UnconfirmedSoulStone"@.len());
    assert(!pending(Seq::<i64>::empty()));
}

/// Claims the mileage reward: refused below `max` mileage (`NotEnoughMileage`); otherwise
/// `max` mileage is spent.
pub fn mileage_reward(mileage: i64, max: i64) -> (r: Result<i64, ServerError>)
    requires
        mileage >= max ==> mileage - max <= i64::MAX,
    ensures
        mileage < max ==> r is Err && is_rule(r->Err_0, "NotEnoughMileage"@),
        mileage >= max ==> r == Ok::<i64, ServerError>((mileage - max) as i64),
{
    if mileage < max {
        return Err(rule("NotEnoughMileage"));
    }
    Ok(mileage - max)
}

/// True when any of a stone's heroes is an NPC of the friendly-point table.
pub fn is_npc_stone(creatures: &Vec<i64>, npc_heroes: &Vec<i64>) -> (r: bool)
    ensures
        r == exists|i: int| 0 <= i < creatures@.len() && npc_heroes@.contains(#[trigger] creatures@[i]),
{
    let mut i: usize = 0;
    while i < creatures.len()
        invariant
            i <= creatures@.len(),
            forall|k: int| 0 <= k < i ==> !npc_heroes@.contains(#[trigger] creatures@[k]),
        decreases creatures@.len() - i,
    {
        let mut j: usize = 0;
        while j < npc_heroes.len()
            invariant
                i < creatures@.len(),
                j <= npc_heroes@.len(),
                forall|k: int| 0 <= k < j ==> npc_heroes@[k] != creatures@[i as int],
            decreases npc_heroes@.len() - j,
        {
            if npc_heroes[j] == creatures[i] {
                proof {
                    assert(npc_heroes@[j as int] == creatures@[i as int]);
                    assert(npc_heroes@.contains(creatures@[i as int]));
                }
                return true;
            }
            j = j + 1;
        }
        i = i + 1;
    }
    false
}

/// True when `s` is strictly increasing.
pub open spec fn ascending(s: Seq<i64>) -> bool {
    forall|i: int, j: int| 0 <= i < j < s.len() ==> s[i] < s[j]
}

/// True when every entry of `s` is a stone of the pool that is a known reward item.
pub open spec fn from_pool(s: Seq<i64>, pool: Seq<i64>, rewardable: Seq<bool>) -> bool {
    forall|k: int| 0 <= k < s.len() ==> exists|p: int| 0 <= p < pool.len() && pool[p] == #[trigger] s[k] && rewardable[p]
}

pub(crate) fn insert_sorted(out: &mut Vec<i64>, x: i64)
    requires
        ascending(old(out)@),
        !old(out)@.contains(x),
    ensures
        ascending(final(out)@),
        final(out)@.len() == old(out)@.len() + 1,
        forall|y: i64| final(out)@.contains(y) <==> (old(out)@.contains(y) || y == x),
{
    let mut k: usize = 0;
    while k < out.len() && out[k] < x
        invariant
            k <= out@.len(),
            forall|i: int| 0 <= i < k ==> out@[i] < x,
        decreases out@.len() - k,
    {
        k = k + 1;
    }
    let ghost before = out@;
    proof {
        if k < before.len() {
            assert(before[k as int] >= x);
            assert(before[k as int] != x) by {
                if before[k as int] == x {
                    assert(before.contains(x));
                }
            }
        }
    }
    out.insert(k, x);
    proof {
        let after = out@;
        assert(after == before.insert(k as int, x));
        assert forall|i: int, j: int| 0 <= i < j < after.len() implies after[i] < after[j] by {
            if j < k {
                assert(after[i] == before[i] && after[j] == before[j]);
            } else if j == k {
                assert(after[i] == before[i]);
            } else if i < k {
                assert(after[i] == before[i] && after[j] == before[j - 1]);
                assert(before[j - 1] >= before[k as int]);
            } else if i == k {
                assert(after[j] == before[j - 1]);
                assert(before[j - 1] >= before[k as int]);
            } else {
                assert(after[i] == before[i - 1] && after[j] == before[j - 1]);
            }
        }
        assert forall|y: i64| after.contains(y) <==> (before.contains(y) || y == x) by {
            if after.contains(y) {
                let i = choose|i: int| 0 <= i < after.len() && after[i] == y;
                if i < k {
                    assert(before[i] == y);
                } else if i > k {
                    assert(before[i - 1] == y);
                }
            }
            if before.contains(y) {
                let i = choose|i: int| 0 <= i < before.len() && before[i] == y;
                if i < k {
                    assert(after[i] == y);
                } else {
                    assert(after[i + 1] == y);
                }
            }
            if y == x {
                assert(after[k as int] == x);
            }
        }
    }
}

proof fn lemma_room_left(chosen: Seq<i64>, pool: Seq<i64>)
    requires
        ascending(chosen),
        crate::lists::distinct(pool),
        chosen.len() < pool.len(),
    ensures
        exists|p: int| 0 <= p < pool.len() && !chosen.contains(#[trigger] pool[p]),
{
    if forall|p: int| 0 <= p < pool.len() ==> chosen.contains(#[trigger] pool[p]) {
        assert(pool.no_duplicates());
        assert(chosen.no_duplicates());
        pool.unique_seq_to_set();
        chosen.unique_seq_to_set();
        assert(pool.to_set().subset_of(chosen.to_set())) by {
            assert forall|x: i64| pool.to_set().contains(x) implies chosen.to_set().contains(x) by {
                let p = choose|p: int| 0 <= p < pool.len() && pool[p] == x;
            }
        }
        vstd::set_lib::lemma_len_subset(pool.to_set(), chosen.to_set());
    }
}

/// The positions among the first `n` of the pool whose stones are not chosen yet, in pool
/// order.
pub open spec fn open_positions(pool: Seq<i64>, chosen: Set<i64>, n: int) -> Seq<int>
    decreases n,
{
    if n <= 0 {
        Seq::empty()
    } else {
        let prev = open_positions(pool, chosen, n - 1);
        if chosen.contains(pool[n - 1]) { prev } else { prev.push(n - 1) }
    }
}

/// The pick of round `k`, or 0 when there is none.
pub open spec fn pick_at(picks: Seq<usize>, k: int) -> int {
    if 0 <= k < picks.len() { picks[k] as int } else { 0 }
}

/// Draws stones from round `k` on, `chosen` already drawn: until `needed` are drawn or 100
/// rounds have passed, each round takes the stone at position `pick % count` among those
/// not drawn yet (in pool order); a round with none left, or whose stone is no known reward
/// item, is refused, and so is ending with another count than `needed`. Gives the stones
/// drawn (none for a refusal) and whether every pick used was below the count it chose
/// among.
pub open spec fn stones_run(pool: Seq<i64>, rewardable: Seq<bool>, needed: i64, picks: Seq<usize>, k: int,
    chosen: Set<i64>) -> (Option<Set<i64>>, bool)
    decreases 100 - k,
{
    if k >= 100 || k >= needed {
        (if k == needed { Some(chosen) } else { None }, true)
    } else {
        let open = open_positions(pool, chosen, pool.len() as int);
        if open.len() == 0 {
            (None, true)
        } else {
            let p = pick_at(picks, k);
            let at = open[p % (open.len() as int)];
            if !rewardable[at] {
                (None, p < open.len())
            } else {
                let rest = stones_run(pool, rewardable, needed, picks, k + 1, chosen.insert(pool[at]));
                (rest.0, p < open.len() && rest.1)
            }
        }
    }
}

/// What a draw answers for the stones `run` gives: refused with `ItemDataNotFound` for
/// none, else those stones in increasing order.
pub open spec fn stones_answer(run: Option<Set<i64>>, r: Result<Vec<i64>, ServerError>) -> bool {
    match run {
        None => r is Err && is_rule(r->Err_0, "ItemDataNotFound"@),
        Some(st) => r is Ok && ascending(r->Ok_0@) && forall|y: i64| r->Ok_0@.contains(y) <==> st.contains(y),
    }
}

/// The positions as integers.
pub open spec fn as_ints(s: Seq<usize>) -> Seq<int> {
    s.map_values(|x: usize| x as int)
}

proof fn lemma_open_positions(pool: Seq<i64>, chosen: Set<i64>, n: int)
    requires
        0 <= n <= pool.len(),
    ensures
        open_positions(pool, chosen, n).len() <= n,
        forall|j: int| 0 <= j < open_positions(pool, chosen, n).len() ==> 0 <= #[trigger] open_positions(pool, chosen, n)[j] < n
            && !chosen.contains(pool[open_positions(pool, chosen, n)[j]]),
        forall|i: int| 0 <= i < n && !chosen.contains(#[trigger] pool[i]) ==> open_positions(pool, chosen, n).contains(i),
    decreases n,
{
    if n > 0 {
        lemma_open_positions(pool, chosen, n - 1);
        let prev = open_positions(pool, chosen, n - 1);
        let cur = open_positions(pool, chosen, n);
        assert forall|i: int| 0 <= i < n && !chosen.contains(#[trigger] pool[i]) implies cur.contains(i) by {
            if i < n - 1 {
                assert(prev.contains(i));
                let j = choose|j: int| 0 <= j < prev.len() && prev[j] == i;
                assert(cur[j] == i);
            } else {
                assert(cur[cur.len() - 1] == i);
            }
        }
    }
}

/// The positions of the stones not drawn yet.
fn open_stones(pool: &Vec<i64>, chosen: &Vec<i64>, Ghost(st): Ghost<Set<i64>>) -> (r: Vec<usize>)
    requires
        pool@.len() < i64::MAX,
        forall|y: i64| chosen@.contains(y) <==> st.contains(y),
    ensures
        as_ints(r@) == open_positions(pool@, st, pool@.len() as int),
{
    let mut avail: Vec<usize> = Vec::new();
    let mut p: usize = 0;
    proof {
        assert(as_ints(avail@) =~= Seq::<int>::empty());
    }
    while p < pool.len()
        invariant
            p <= pool@.len(),
            forall|y: i64| chosen@.contains(y) <==> st.contains(y),
            as_ints(avail@) == open_positions(pool@, st, p as int),
        decreases pool@.len() - p,
    {
        let mut taken = false;
        let mut c: usize = 0;
        while c < chosen.len()
            invariant
                p < pool@.len(),
                c <= chosen@.len(),
                taken == exists|k: int| 0 <= k < c && chosen@[k] == pool@[p as int],
            decreases chosen@.len() - c,
        {
            if chosen[c] == pool[p] {
                taken = true;
            }
            c = c + 1;
        }
        proof {
            if taken {
                let k = choose|k: int| 0 <= k < c && chosen@[k] == pool@[p as int];
                assert(chosen@.contains(pool@[p as int]));
            } else {
                assert(!chosen@.contains(pool@[p as int])) by {
                    if chosen@.contains(pool@[p as int]) {
                        let k = choose|k: int| 0 <= k < chosen@.len() && chosen@[k] == pool@[p as int];
                        assert(chosen@[k] == pool@[p as int]);
                    }
                }
            }
        }
        let ghost before = avail@;
        if !taken {
            avail.push(p);
            proof {
                assert(as_ints(avail@) =~= as_ints(before).push(p as int));
            }
        }
        p = p + 1;
    }
    avail
}

/// Draws `needed` different stones from the pool with the given picks, as `stones_run`
/// says; the stones come back in increasing order.
pub fn soul_stones_with(pool: &Vec<i64>, rewardable: &Vec<bool>, needed: i64, picks: &Vec<usize>)
    -> (r: Result<Vec<i64>, ServerError>)
    requires
        pool@.len() == rewardable@.len(),
        pool@.len() < i64::MAX,
    ensures
        stones_answer(stones_run(pool@, rewardable@, needed, picks@, 0, Set::empty()).0, r),
{
    let mut chosen: Vec<i64> = Vec::new();
    let ghost mut st: Set<i64> = Set::empty();
    let mut round: usize = 0;
    while round < 100 && (round as i64) < needed
        invariant
            pool@.len() == rewardable@.len(),
            pool@.len() < i64::MAX,
            round <= 100,
            ascending(chosen@),
            forall|y: i64| chosen@.contains(y) <==> st.contains(y),
            stones_run(pool@, rewardable@, needed, picks@, 0, Set::empty()).0
                == stones_run(pool@, rewardable@, needed, picks@, round as int, st).0,
        decreases 100 - round,
    {
        let open = open_stones(pool, &chosen, Ghost(st));
        proof {
            lemma_open_positions(pool@, st, pool@.len() as int);
        }
        if open.len() == 0 {
            return Err(rule("ItemDataNotFound"));
        }
        let pick: usize = if round < picks.len() { picks[round] } else { 0 };
        let at = open[pick % open.len()];
        proof {
            let op = open_positions(pool@, st, pool@.len() as int);
            assert(pick_at(picks@, round as int) == pick as int);
            assert(op[(pick % open.len()) as int] == at as int);
        }
        if !rewardable[at] {
            return Err(rule("ItemDataNotFound"));
        }
        let id = pool[at];
        insert_sorted(&mut chosen, id);
        proof {
            st = st.insert(id);
        }
        round = round + 1;
    }
    if round as i64 != needed {
        return Err(rule("ItemDataNotFound"));
    }
    proof {
        assert(round as int == needed);
    }
    Ok(chosen)
}

/// Draws `needed` different stones from the pool, each uniformly among those not drawn
/// yet: each round's pick is drawn below the count of stones left, and the stones are the
/// ones `soul_stones_with` gives for those picks. Succeeds whenever at most 100 stones are
/// needed, the pool holds enough, and every stone is a known reward item.
pub fn draw_soul_stones(pool: &Vec<i64>, rewardable: &Vec<bool>, needed: i64) -> (r: Result<Vec<i64>, ServerError>)
    requires
        pool@.len() == rewardable@.len(),
        pool@.len() < i64::MAX,
        crate::lists::distinct(pool@),
    ensures
        exists|picks: Seq<usize>| #![trigger stones_run(pool@, rewardable@, needed, picks, 0, Set::empty())]
            stones_run(pool@, rewardable@, needed, picks, 0, Set::empty()).1
            && stones_answer(stones_run(pool@, rewardable@, needed, picks, 0, Set::empty()).0, r),
        r is Ok ==> r->Ok_0@.len() == needed && ascending(r->Ok_0@) && from_pool(r->Ok_0@, pool@, rewardable@),
        0 <= needed <= 100 && needed <= pool@.len() && (forall|p: int| 0 <= p < rewardable@.len() ==> #[trigger] rewardable@[p])
            ==> r is Ok,
{
    let mut chosen: Vec<i64> = Vec::new();
    let ghost mut st: Set<i64> = Set::empty();
    let ghost mut picks: Seq<usize> = Seq::empty();
    let mut round: usize = 0;
    while round < 100 && (round as i64) < needed
        invariant
            pool@.len() == rewardable@.len(),
            pool@.len() < i64::MAX,
            crate::lists::distinct(pool@),
            round <= 100,
            chosen@.len() == round,
            picks.len() == round,
            round > 0 ==> round <= needed,
            ascending(chosen@),
            from_pool(chosen@, pool@, rewardable@),
            forall|y: i64| chosen@.contains(y) <==> st.contains(y),
            forall|q: Seq<usize>| #![trigger stones_run(pool@, rewardable@, needed, q, 0, Set::empty())]
                q.len() >= round && q.take(round as int) == picks
                ==> stones_run(pool@, rewardable@, needed, q, 0, Set::empty())
                    == stones_run(pool@, rewardable@, needed, q, round as int, st),
        decreases 100 - round,
    {
        let open = open_stones(pool, &chosen, Ghost(st));
        proof {
            lemma_open_positions(pool@, st, pool@.len() as int);
            assert(open@.len() == as_ints(open@).len());
        }
        if open.len() == 0 {
            proof {
                assert(picks.take(round as int) =~= picks);
                assert(stones_run(pool@, rewardable@, needed, picks, 0, Set::empty()).0 is None);
                if 0 <= needed <= 100 && needed <= pool@.len() {
                    lemma_room_left(chosen@, pool@);
                    let q = choose|q: int| 0 <= q < pool@.len() && !chosen@.contains(#[trigger] pool@[q]);
                    assert(open_positions(pool@, st, pool@.len() as int).contains(q));
                }
            }
            return Err(rule("ItemDataNotFound"));
        }
        let drawn = random_below(open.len() as i64);
        let pick = drawn as usize;
        proof {
            assert(pick < open.len());
            assert(pick % open.len() == pick) by (nonlinear_arith)
                requires pick < open.len();
        }
        let at = open[pick];
        let ghost newp = picks.push(pick);
        proof {
            let op = open_positions(pool@, st, pool@.len() as int);
            assert(op[pick as int] == at as int);
            assert(0 <= at < pool@.len() && !st.contains(pool@[at as int]));
            assert forall|q: Seq<usize>| q.len() >= round + 1 && q.take(round + 1) == newp
                implies stones_run(pool@, rewardable@, needed, q, 0, Set::empty())
                    == stones_run(pool@, rewardable@, needed, q, round as int, st) by {
                assert(q.take(round as int) =~= picks) by {
                    assert forall|j: int| 0 <= j < round implies q.take(round as int)[j] == picks[j] by {
                        assert(q.take(round + 1)[j] == newp[j]);
                    }
                }
            }
        }
        if !rewardable[at] {
            proof {
                assert(newp.take(round + 1) =~= newp);
                assert(pick_at(newp, round as int) == pick as int);
                assert(stones_run(pool@, rewardable@, needed, newp, 0, Set::empty()) == (None::<Set<i64>>, true));
            }
            return Err(rule("ItemDataNotFound"));
        }
        let id = pool[at];
        let ghost before = chosen@;
        insert_sorted(&mut chosen, id);
        proof {
            assert forall|k: int| 0 <= k < chosen@.len() implies exists|q: int| 0 <= q < pool@.len() && pool@[q] == #[trigger] chosen@[k] && rewardable@[q] by {
                let y = chosen@[k];
                assert(chosen@.contains(y));
                if y == id {
                    assert(pool@[at as int] == y && rewardable@[at as int]);
                } else {
                    assert(before.contains(y));
                    let j = choose|j: int| 0 <= j < before.len() && before[j] == y;
                    assert(exists|q: int| 0 <= q < pool@.len() && pool@[q] == before[j] && rewardable@[q]);
                }
            }
            let st2 = st.insert(id);
            assert forall|q: Seq<usize>| #![trigger stones_run(pool@, rewardable@, needed, q, 0, Set::empty())]
                q.len() >= round + 1 && q.take(round + 1) == newp
                implies stones_run(pool@, rewardable@, needed, q, 0, Set::empty())
                    == stones_run(pool@, rewardable@, needed, q, round + 1, st2) by {
                assert(q.take(round + 1)[round as int] == newp[round as int]);
                assert(q[round as int] == pick);
                assert(pick_at(q, round as int) == pick as int);
            }
            st = st2;
            picks = newp;
        }
        round = round + 1;
    }
    proof {
        assert(picks.take(round as int) =~= picks);
        assert(stones_run(pool@, rewardable@, needed, picks, 0, Set::empty())
            == stones_run(pool@, rewardable@, needed, picks, round as int, st));
    }
    if round as i64 != needed {
        return Err(rule("ItemDataNotFound"));
    }
    Ok(chosen)
}

} // verus!
