//! Equipment storage slots: the slots every player starts with, buying another, naming
//! one, filling one from a hero's parts, and putting a stored set on a hero.
use vstd::prelude::*;
use crate::error::{rule, is_rule, ServerError};
use crate::equip::{EquipBoard, board_ok};
use vstd::string::StrSliceExecFns;

verus! {

/// A storage extension row: the slot count it opens, whether it is open from the start,
/// and its gem price.
#[derive(Clone, Copy)]
pub struct StorageExtend {
    pub slot_count: i64,
    pub default_open: bool,
    pub price: i64,
}

/// The largest slot count among the first `n` rows open from the start, none when no
/// such row exists.
pub open spec fn default_max(rows: Seq<StorageExtend>, n: int) -> Option<i64>
    decreases n,
{
    if n <= 0 {
        None
    } else {
        let m = default_max(rows, n - 1);
        if !rows[n - 1].default_open {
            m
        } else {
            match m {
                Some(v) => if rows[n - 1].slot_count > v { Some(rows[n - 1].slot_count) } else { Some(v) },
                None => Some(rows[n - 1].slot_count),
            }
        }
    }
}

/// The number of storage slots every player has: the largest slot count of a row open
/// from the start, 0 when none is.
pub fn default_slot_count(rows: &Vec<StorageExtend>) -> (r: i64)
    ensures
        r == default_max(rows@, rows@.len() as int).unwrap_or(0),
{
    let mut best: Option<i64> = None;
    let mut i: usize = 0;
    while i < rows.len()
        invariant
            i <= rows@.len(),
            best == default_max(rows@, i as int),
        decreases rows@.len() - i,
    {
        let row = rows[i];
        if row.default_open {
            best = match best {
                Some(v) => if row.slot_count > v { Some(row.slot_count) } else { Some(v) },
                None => Some(row.slot_count),
            };
        }
        i = i + 1;
    }
    match best {
        Some(v) => v,
        None => 0,
    }
}

/// The storage slot a purchase opens (one past the highest slot, or 1) and the row that
/// prices it: among the rows opening at least that many slots, the first with the fewest.
pub open spec fn next_storage_slot(indices: Seq<i64>, n: int) -> int
    decreases n,
{
    if n <= 0 {
        1
    } else {
        let m = next_storage_slot(indices, n - 1);
        if indices[n - 1] + 1 > m { indices[n - 1] + 1 } else { m }
    }
}

/// True when row `k` prices slot `next`: it opens enough slots, no row before it opens
/// fewer or as many that are enough, and no row after it opens fewer that are enough.
pub open spec fn prices_slot(rows: Seq<StorageExtend>, next: int, k: int) -> bool {
    &&& 0 <= k < rows.len()
    &&& rows[k].slot_count >= next
    &&& forall|i: int| 0 <= i < k && #[trigger] rows[i].slot_count >= next ==> rows[i].slot_count > rows[k].slot_count
    &&& forall|i: int| k < i < rows.len() && #[trigger] rows[i].slot_count >= next ==> rows[i].slot_count >= rows[k].slot_count
}

/// Prices the next storage slot (`indices` are the player's slot numbers): refused with
/// `MaxSlotCount` when no row opens that many. Gives the slot and its gem price.
pub fn storage_offer(indices: &Vec<i64>, rows: &Vec<StorageExtend>) -> (r: Result<(i64, i64), ServerError>)
    requires
        forall|i: int| 0 <= i < indices@.len() ==> #[trigger] indices@[i] < i64::MAX,
    ensures
        (forall|k: int| 0 <= k < rows@.len() ==> (#[trigger] rows@[k]).slot_count < next_storage_slot(indices@, indices@.len() as int))
            ==> r is Err && is_rule(r->Err_0, "MaxSlotCount"@),
        r is Ok ==> r->Ok_0.0 == next_storage_slot(indices@, indices@.len() as int)
            && exists|k: int| prices_slot(rows@, r->Ok_0.0 as int, k) && r->Ok_0.1 == rows@[k].price,
        (exists|k: int| 0 <= k < rows@.len() && (#[trigger] rows@[k]).slot_count >= next_storage_slot(indices@, indices@.len() as int)) ==> r is Ok,
{
    let mut next: i64 = 1;
    let mut i: usize = 0;
    while i < indices.len()
        invariant
            i <= indices@.len(),
            forall|j: int| 0 <= j < indices@.len() ==> #[trigger] indices@[j] < i64::MAX,
            next == next_storage_slot(indices@, i as int),
        decreases indices@.len() - i,
    {
        if indices[i] + 1 > next {
            next = indices[i] + 1;
        }
        i = i + 1;
    }
    let mut best: Option<usize> = None;
    let mut k: usize = 0;
    while k < rows.len()
        invariant
            k <= rows@.len(),
            best is None ==> forall|j: int| 0 <= j < k ==> (#[trigger] rows@[j]).slot_count < next,
            best matches Some(b) ==> b < k && rows@[b as int].slot_count >= next
                && (forall|j: int| 0 <= j < b && #[trigger] rows@[j].slot_count >= next ==> rows@[j].slot_count > rows@[b as int].slot_count)
                && (forall|j: int| b < j < k && #[trigger] rows@[j].slot_count >= next ==> rows@[j].slot_count >= rows@[b as int].slot_count),
        decreases rows@.len() - k,
    {
        let c = rows[k].slot_count;
        if c >= next {
            match best {
                None => { best = Some(k); },
                Some(b) => {
                    if c < rows[b].slot_count {
                        best = Some(k);
                    }
                },
            }
        }
        k = k + 1;
    }
    match best {
        None => Err(rule("MaxSlotCount")),
        Some(b) => {
            proof {
                assert(prices_slot(rows@, next as int, b as int));
            }
            Ok((next, rows[b].price))
        },
    }
}

/// True when a storage slot name is refused: more than 40 characters, or a control
/// character.
pub open spec fn bad_storage_name(s: Seq<char>) -> bool {
    s.len() > 40 || exists|k: int| 0 <= k < s.len() && crate::consumables::is_control(#[trigger] s[k])
}

/// Names a storage slot: the name asked for, trimmed, refused with `InvalidName` as
/// `bad_storage_name` says. Gives the trimmed name.
pub fn storage_name(text: &str) -> (r: Result<String, ServerError>)
    ensures
        bad_storage_name(crate::consumables::trimmed(text@)) ==> r is Err && is_rule(r->Err_0, "InvalidName"@),
        !bad_storage_name(crate::consumables::trimmed(text@)) ==> r is Ok && r->Ok_0@ == crate::consumables::trimmed(text@),
{
    let name = crate::consumables::trim(text);
    let n = name.as_str().unicode_len();
    if n > 40 {
        return Err(rule("InvalidName"));
    }
    let mut k: usize = 0;
    while k < n
        invariant
            n == name@.len(),
            name@ == crate::consumables::trimmed(text@),
            n <= 40,
            k <= n,
            forall|j: int| 0 <= j < k ==> !crate::consumables::is_control(#[trigger] name@[j]),
        decreases n - k,
    {
        let c = name.as_str().get_char(k);
        let u = c as u32;
        if u <= 0x1F || (0x7F <= u && u <= 0x9F) {
            proof {
                assert(crate::consumables::is_control(name@[k as int]));
            }
            return Err(rule("InvalidName"));
        }
        k = k + 1;
    }
    Ok(name)
}

/// Checks the lists of a storage slot filled from a hero: `parts` the JSON list of the
/// hero's parts (none when it is no list of integers) and `slots` the items' slots. There
/// must be items, as many parts, and no part twice (`InvalidEquipItem`).
pub fn storage_lists_check(parts: Option<&Vec<i64>>, slots: &Vec<i64>) -> (r: Result<(), ServerError>)
    ensures
        match parts {
            None => r is Err && is_rule(r->Err_0, "InvalidEquipItem"@),
            Some(p) => if slots@.len() == 0 || p@.len() != slots@.len() || !crate::lists::distinct(p@) {
                r is Err && is_rule(r->Err_0, "InvalidEquipItem"@)
            } else {
                r is Ok
            },
        },
{
    let p = match parts {
        None => { return Err(rule("InvalidEquipItem")); },
        Some(p) => p,
    };
    if slots.len() == 0 || p.len() != slots.len() || !crate::lists::is_distinct(p) {
        return Err(rule("InvalidEquipItem"));
    }
    Ok(())
}

/// Puts item slot `slot` at hero part `part` (0 to 9) of a storage layout, refused with
/// `InvalidEquipItem` for another part.
pub fn place_in_layout(layout: &mut Vec<i64>, part: i64, slot: i64) -> (r: Result<(), ServerError>)
    requires
        old(layout)@.len() == 10,
    ensures
        0 <= part < 10 ==> r is Ok && final(layout)@ == old(layout)@.update(part as int, slot),
        !(0 <= part < 10) ==> r is Err && is_rule(r->Err_0, "InvalidEquipItem"@) && final(layout)@ == old(layout)@,
{
    if part < 0 || part >= 10 {
        return Err(rule("InvalidEquipItem"));
    }
    layout.set(part as usize, slot);
    Ok(())
}

/// True when a hero other than the one at position `hp` wears `e` in column `c`.
pub open spec fn other_wears(heroes: Seq<i32>, slots: Seq<i32>, hp: int, c: int, e: i32) -> bool {
    exists|k: int| 0 <= k < heroes.len() && heroes[k] != heroes[hp] && #[trigger] slots[10 * k + c] == e
}

/// The first hero position, among the first `n`, of a hero other than the one at `hp`
/// wearing `e` in column `c`.
pub open spec fn column_owner(heroes: Seq<i32>, slots: Seq<i32>, hp: int, c: int, e: i32, n: int) -> Option<int>
    decreases n,
{
    if n <= 0 {
        None
    } else {
        match column_owner(heroes, slots, hp, c, e, n - 1) {
            Some(k) => Some(k),
            None => if heroes[n - 1] != heroes[hp] && slots[10 * (n - 1) + c] == e { Some(n - 1) } else { None },
        }
    }
}

/// What taking `e` from other heroes finds, column by column over the first `m` columns:
/// `e` once for each column where another hero wears it, and the hero found in the last
/// such column (`prior` when none).
pub open spec fn owners(heroes: Seq<i32>, slots: Seq<i32>, hp: int, e: i32, m: int, prior: Option<i32>) -> (Seq<i32>, Option<i32>)
    decreases m,
{
    if m <= 0 {
        (Seq::empty(), prior)
    } else {
        let (found, who) = owners(heroes, slots, hp, e, m - 1, prior);
        match column_owner(heroes, slots, hp, m - 1, e, heroes.len() as int) {
            Some(k) => (found.push(e), Some(heroes[k])),
            None => (found, who),
        }
    }
}

/// The board with every slot holding `e` emptied.
pub open spec fn wiped(slots: Seq<i32>, e: i32) -> Seq<i32> {
    Seq::new(slots.len(), |i: int| if slots[i] == e { 0i32 } else { slots[i] })
}

/// One part of a stored set put on the hero at `hp`: item `e` (when positive) leaves every
/// hero, then takes part `p` of the hero. Gives the board, the copies taken from other
/// heroes, and the last such hero (`prior` when none).
pub open spec fn storage_step(heroes: Seq<i32>, slots: Seq<i32>, hp: int, p: int, e: i32, prior: Option<i32>) -> (Seq<i32>, Seq<i32>, Option<i32>) {
    if e > 0 {
        let (found, who) = owners(heroes, slots, hp, e, 10, prior);
        (wiped(slots, e).update(10 * hp + p, e), found, who)
    } else {
        (slots.update(10 * hp + p, e), Seq::empty(), prior)
    }
}

/// The first `n` parts of a stored set put on the hero at `hp`, in part order.
pub open spec fn storage_run(heroes: Seq<i32>, slots: Seq<i32>, hp: int, set: Seq<i32>, n: int) -> (Seq<i32>, Seq<i32>, Option<i32>)
    decreases n,
{
    if n <= 0 {
        (slots, Seq::empty(), None)
    } else {
        let (s, found, who) = storage_run(heroes, slots, hp, set, n - 1);
        let (s2, f2, w2) = storage_step(heroes, s, hp, n - 1, set[n - 1], who);
        (s2, found + f2, w2)
    }
}

/// The items the hero at `hp` loses to a stored set, looking at the first `n` parts: what
/// it wore at each part where the set puts something else.
pub open spec fn replaced(before: Seq<i32>, hp: int, set: Seq<i32>, n: int) -> Seq<i32>
    decreases n,
{
    if n <= 0 {
        Seq::empty()
    } else {
        let prev = before[10 * hp + n - 1];
        replaced(before, hp, set, n - 1) + if prev > 0 && prev != set[n - 1] { seq![prev] } else { Seq::empty() }
    }
}

/// What putting a stored set on a hero gives: the items put on, the items it lost, the
/// copies taken from other heroes, and the last hero they were taken from.
pub struct StorageOutcome {
    pub equipped: Vec<i32>,
    pub removed: Vec<i32>,
    pub taken: Vec<i32>,
    pub old_hero: Option<i32>,
}

fn find_owner(heroes: &Vec<i32>, slots: &Vec<i32>, hp: usize, c: usize, e: i32) -> (r: Option<usize>)
    requires
        board_ok(heroes@, slots@),
        hp < heroes@.len(),
        c < 10,
    ensures
        r is Some <==> column_owner(heroes@, slots@, hp as int, c as int, e, heroes@.len() as int) is Some,
        r is Some ==> column_owner(heroes@, slots@, hp as int, c as int, e, heroes@.len() as int) == Some(r->0 as int) && r->0 < heroes@.len(),
{
    let n = heroes.len();
    let len = slots.len();
    let mut k: usize = 0;
    while k < n
        invariant
            n == heroes@.len(),
            len == slots@.len(),
            board_ok(heroes@, slots@),
            hp < n,
            c < 10,
            k <= n,
            column_owner(heroes@, slots@, hp as int, c as int, e, k as int) is None,
        decreases n - k,
    {
        proof {
            assert(10 * k + c < 10 * n) by (nonlinear_arith) requires k < n, c < 10;
        }
        if heroes[k] != heroes[hp] && slots[10 * k + c] == e {
            proof {
                assert(column_owner(heroes@, slots@, hp as int, c as int, e, k + 1) == Some(k as int));
                lemma_owner_sticks(heroes@, slots@, hp as int, c as int, e, k + 1, n as int);
            }
            return Some(k);
        }
        k = k + 1;
    }
    None
}

proof fn lemma_owner_sticks(heroes: Seq<i32>, slots: Seq<i32>, hp: int, c: int, e: i32, m: int, n: int)
    requires
        0 <= m <= n,
        column_owner(heroes, slots, hp, c, e, m) is Some,
    ensures
        column_owner(heroes, slots, hp, c, e, n) == column_owner(heroes, slots, hp, c, e, m),
    decreases n - m,
{
    if n > m {
        lemma_owner_sticks(heroes, slots, hp, c, e, m, n - 1);
    }
}

proof fn lemma_owner_range(heroes: Seq<i32>, slots: Seq<i32>, hp: int, c: int, e: i32, n: int)
    ensures
        column_owner(heroes, slots, hp, c, e, n) matches Some(k) ==> 0 <= k < n,
    decreases n,
{
    if n > 0 {
        lemma_owner_range(heroes, slots, hp, c, e, n - 1);
    }
}

fn wipe(slots: &mut Vec<i32>, e: i32)
    ensures
        final(slots)@ == wiped(old(slots)@, e),
{
    let ghost start = slots@;
    let mut i: usize = 0;
    while i < slots.len()
        invariant
            slots@.len() == start.len(),
            i <= slots@.len(),
            forall|j: int| 0 <= j < i ==> #[trigger] slots@[j] == (if start[j] == e { 0i32 } else { start[j] }),
            forall|j: int| i <= j < slots@.len() ==> #[trigger] slots@[j] == start[j],
        decreases slots@.len() - i,
    {
        if slots[i] == e {
            slots.set(i, 0);
        }
        i = i + 1;
    }
    proof {
        assert(slots@ =~= wiped(start, e));
    }
}

/// Puts the stored set `set` (an item slot for each of the ten parts, 0 for none) on the
/// hero at position `hp`, part by part as `storage_run` says; gives the items put on (the
/// positive ones, in part order), the items the hero lost (`replaced`), the copies taken
/// from other heroes and the last hero they came from.
pub fn storage_equip(board: &mut EquipBoard, hp: usize, set: &Vec<i32>) -> (r: StorageOutcome)
    requires
        board_ok(old(board).heroes@, old(board).slots@),
        hp < old(board).heroes@.len(),
        set@.len() == 10,
    ensures
        final(board).heroes@ == old(board).heroes@,
        board_ok(final(board).heroes@, final(board).slots@),
        ({
            let (s, taken, who) = storage_run(old(board).heroes@, old(board).slots@, hp as int, set@, 10);
            &&& final(board).slots@ == s
            &&& r.taken@ == taken
            &&& r.old_hero == who
        }),
        r.equipped@ == set@.filter(|e: i32| e > 0),
        r.removed@ == replaced(old(board).slots@, hp as int, set@, 10),
{
    let ghost heroes = board.heroes@;
    let ghost start = board.slots@;
    let ghost pos = |e: i32| e > 0;
    let n = board.heroes.len();
    let len = board.slots.len();
    proof {
        assert(10 * hp + 10 <= 10 * n) by (nonlinear_arith) requires hp < n;
    }
    let mut before: Vec<i32> = Vec::new();
    let mut j: usize = 0;
    while j < 10
        invariant
            board.slots@ == start,
            board.heroes@ == heroes,
            len == start.len(),
            n == heroes.len(),
            board_ok(heroes, start),
            10 * hp + 10 <= start.len(),
            j <= 10,
            before@.len() == j,
            forall|q: int| 0 <= q < j ==> #[trigger] before@[q] == start[10 * hp + q],
        decreases 10 - j,
    {
        before.push(board.slots[10 * hp + j]);
        j = j + 1;
    }
    let mut equipped: Vec<i32> = Vec::new();
    let mut removed: Vec<i32> = Vec::new();
    let mut taken: Vec<i32> = Vec::new();
    let mut who: Option<i32> = None;
    let mut p: usize = 0;
    while p < 10
        invariant
            board.heroes@ == heroes,
            n == heroes.len(),
            len == start.len(),
            board_ok(heroes, board.slots@),
            board.slots@.len() == start.len(),
            10 * hp + 10 <= start.len(),
            hp < n,
            set@.len() == 10,
            pos == (|e: i32| e > 0),
            p <= 10,
            before@.len() == 10,
            forall|q: int| 0 <= q < 10 ==> #[trigger] before@[q] == start[10 * hp + q],
            ({
                let (s, t, w) = storage_run(heroes, start, hp as int, set@, p as int);
                &&& board.slots@ == s
                &&& taken@ == t
                &&& who == w
            }),
            equipped@ == set@.take(p as int).filter(pos),
            removed@ == replaced(start, hp as int, set@, p as int),
        decreases 10 - p,
    {
        let e = set[p];
        let prev = before[p];
        let ghost r0 = removed@;
        if prev > 0 && prev != e {
            removed.push(prev);
        }
        proof {
            assert(removed@ == replaced(start, hp as int, set@, p + 1));
            assert(set@.take(p + 1) =~= set@.take(p as int).push(e));
            set@.take(p as int).lemma_filter_push(e, pos);
        }
        let ghost s0 = board.slots@;
        let ghost t0 = taken@;
        let ghost w0 = who;
        if e > 0 {
            let mut c: usize = 0;
            while c < 10
                invariant
                    board.heroes@ == heroes,
                    board.slots@ == s0,
                    n == heroes.len(),
                    board_ok(heroes, s0),
                    hp < n,
                    c <= 10,
                    ({
                        let (f, w) = owners(heroes, s0, hp as int, e, c as int, w0);
                        &&& taken@ == t0 + f
                        &&& who == w
                    }),
                decreases 10 - c,
            {
                match find_owner(&board.heroes, &board.slots, hp, c, e) {
                    Some(k) => {
                        taken.push(e);
                        who = Some(board.heroes[k]);
                        proof {
                            let (f, w) = owners(heroes, s0, hp as int, e, c as int, w0);
                            assert(t0 + f.push(e) =~= (t0 + f).push(e));
                        }
                    },
                    None => {},
                }
                c = c + 1;
            }
            wipe(&mut board.slots, e);
            board.slots.set(10 * hp + p, e);
            equipped.push(e);
            proof {
                let (f, w) = owners(heroes, s0, hp as int, e, 10, w0);
                let (s, t, ww) = storage_run(heroes, start, hp as int, set@, p as int);
                assert(taken@ =~= t + f);
            }
        } else {
            board.slots.set(10 * hp + p, e);
            proof {
                let (s, t, ww) = storage_run(heroes, start, hp as int, set@, p as int);
                assert(taken@ =~= t + Seq::<i32>::empty());
            }
        }
        p = p + 1;
    }
    proof {
        assert(set@.take(10) =~= set@);
    }
    StorageOutcome { equipped, removed, taken, old_hero: who }
}

} // verus!
