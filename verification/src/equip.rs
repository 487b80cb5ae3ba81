//! Equipping heroes: which item sits in which of a hero's ten slots, and how equipping and
//! unequipping move items between heroes.
use vstd::prelude::*;
use crate::error::ServerError;

verus! {

/// A request to equip items: item `equip_item_slot_index[i]` goes to slot
/// `hero_part_index[i]` (0 to 9) of the hero.
pub struct SetEquipRequest {
    pub session_id: Option<String>,
    pub hero_index: Option<i32>,
    pub hero_part_index: Option<Vec<i32>>,
    pub equip_item_slot_index: Option<Vec<i32>>,
}

/// The items equipped, and those taken off a hero on the way.
pub struct SetEquipResponse {
    pub base_result: String,
    pub result: String,
    pub internal_error_message: Option<String>,
    pub equipped_slot_index: Vec<i32>,
    pub un_equipped_slot_index: Vec<i32>,
}

/// A request to take items off whichever hero wears them.
pub struct UnsetEquipRequest {
    pub session_id: Option<String>,
    pub equip_item_slot_index: Option<Vec<i32>>,
}

/// The items taken off.
pub struct UnsetEquipResponse {
    pub base_result: String,
    pub result: String,
    pub internal_error_message: Option<String>,
    pub unequipped_slot_index: Vec<i32>,
}

/// Every hero's ten equipment slots: the slots of hero `heroes[k]` are entries `10 * k` to
/// `10 * k + 9` of `slots`, each holding an item's inventory slot or 0.
pub struct EquipBoard {
    pub heroes: Vec<i32>,
    pub slots: Vec<i32>,
}

/// True when the board has ten slots per hero.
pub open spec fn board_ok(heroes: Seq<i32>, slots: Seq<i32>) -> bool {
    slots.len() == 10 * heroes.len()
}

/// True when hero `k` wears item `e`.
pub open spec fn wears(slots: Seq<i32>, k: int, e: i32) -> bool {
    exists|j: int| 0 <= j < 10 && #[trigger] slots[10 * k + j] == e
}

/// The first hero, in board order, wearing `e`.
pub open spec fn first_wearer(slots: Seq<i32>, n: int, e: i32) -> Option<int>
    decreases n,
{
    if n <= 0 {
        None
    } else {
        match first_wearer(slots, n - 1, e) {
            Some(k) => Some(k),
            None => if wears(slots, n - 1, e) { Some(n - 1) } else { None },
        }
    }
}

/// Hero `k`'s slots holding `e` emptied.
pub open spec fn cleared(slots: Seq<i32>, k: int, e: i32) -> Seq<i32> {
    Seq::new(slots.len(), |i: int| if 10 * k <= i < 10 * k + 10 && slots[i] == e { 0i32 } else { slots[i] })
}

/// One equipping step: item `e` goes to slot `p` of hero `h` (at board position `hp`). The
/// first hero wearing it, when another hero, loses it from every slot; what sat in the
/// target slot, when something else, comes off. Gives the board and the items taken off.
pub open spec fn equip_step(heroes: Seq<i32>, slots: Seq<i32>, hp: int, p: int, e: i32) -> (Seq<i32>, Seq<i32>) {
    let (s1, off1) = match first_wearer(slots, heroes.len() as int, e) {
        Some(o) => if heroes[o] != heroes[hp] { (cleared(slots, o, e), seq![e]) } else { (slots, Seq::<i32>::empty()) },
        None => (slots, Seq::<i32>::empty()),
    };
    let cur = s1[10 * hp + p];
    let off2 = if cur != 0 && cur != e { off1.push(cur) } else { off1 };
    (s1.update(10 * hp + p, e), off2)
}

/// The board and the items taken off after the first `n` steps of an equip request.
pub open spec fn equip_run(heroes: Seq<i32>, slots: Seq<i32>, hp: int, parts: Seq<i32>, items: Seq<i32>, n: int) -> (Seq<i32>, Seq<i32>)
    decreases n,
{
    if n <= 0 {
        (slots, Seq::empty())
    } else {
        let (s, off) = equip_run(heroes, slots, hp, parts, items, n - 1);
        let (s2, off2) = equip_step(heroes, s, hp, parts[n - 1] as int, items[n - 1]);
        (s2, off + off2)
    }
}

/// True when an equip request's lists are well formed: one to ten parts, as many items,
/// every part in `0..10`, and no part or item twice.
pub open spec fn equip_lists_ok(parts: Seq<i32>, items: Seq<i32>) -> bool {
    &&& 1 <= parts.len() <= 10
    &&& parts.len() == items.len()
    &&& forall|i: int| 0 <= i < parts.len() ==> 0 <= #[trigger] parts[i] < 10
    &&& forall|i: int, j: int| 0 <= i < j < parts.len() ==> parts[i] != parts[j]
    &&& forall|i: int, j: int| 0 <= i < j < items.len() ==> items[i] != items[j]
}

fn lists_ok(parts: &Vec<i32>, items: &Vec<i32>) -> (r: bool)
    ensures
        r == equip_lists_ok(parts@, items@),
{
    if parts.len() == 0 || parts.len() != items.len() || parts.len() > 10 {
        return false;
    }
    let mut i: usize = 0;
    while i < parts.len()
        invariant
            i <= parts@.len(),
            forall|k: int| 0 <= k < i ==> 0 <= #[trigger] parts@[k] < 10,
        decreases parts@.len() - i,
    {
        if parts[i] < 0 || parts[i] >= 10 {
            return false;
        }
        i = i + 1;
    }
    let mut a: usize = 0;
    while a < parts.len()
        invariant
            parts@.len() == items@.len(),
            a <= parts@.len(),
            forall|x: int, y: int| 0 <= x < y < parts@.len() && x < a ==> parts@[x] != parts@[y] && items@[x] != items@[y],
        decreases parts@.len() - a,
    {
        let mut b = a + 1;
        while b < parts.len()
            invariant
                parts@.len() == items@.len(),
                a < parts@.len(),
                a + 1 <= b <= parts@.len(),
                forall|y: int| a < y < b ==> parts@[a as int] != parts@[y] && items@[a as int] != items@[y],
            decreases parts@.len() - b,
        {
            if parts[a] == parts[b] || items[a] == items[b] {
                return false;
            }
            b = b + 1;
        }
        a = a + 1;
    }
    true
}

/// Why an equip request is refused before anything moves: malformed lists, a hero the
/// player does not own, or an item not in the bag (`items_ok[i]` is none) or that cannot be
/// worn (`items_ok[i]` is `Some(false)`).
pub open spec fn equip_refusal(parts: Seq<i32>, items: Seq<i32>, owned: bool, items_ok: Seq<Option<bool>>) -> Option<Seq<char>> {
    if !equip_lists_ok(parts, items) {
        Some("Invalid equipment slots"@)
    } else if !owned {
        Some("HeroNotOwned"@)
    } else {
        first_item_refusal(items_ok)
    }
}

/// The first item refusal in order.
pub open spec fn first_item_refusal(ok: Seq<Option<bool>>) -> Option<Seq<char>>
    decreases ok.len(),
{
    if ok.len() == 0 {
        None
    } else {
        match first_item_refusal(ok.drop_last()) {
            Some(e) => Some(e),
            None => match ok.last() {
                None => Some("EquipNotOwned"@),
                Some(false) => Some("ImpossibleEquipItem"@),
                Some(true) => None,
            },
        }
    }
}

proof fn lemma_item_refusal_sticks(ok: Seq<Option<bool>>, n: int)
    requires
        0 <= n <= ok.len(),
        first_item_refusal(ok.take(n)) is Some,
    ensures
        first_item_refusal(ok) == first_item_refusal(ok.take(n)),
    decreases ok.len() - n,
{
    if n < ok.len() {
        assert(ok.take(n + 1).drop_last() =~= ok.take(n));
        lemma_item_refusal_sticks(ok, n + 1);
    } else {
        assert(ok.take(n) =~= ok);
    }
}

/// Checks an equip request before anything moves, as `equip_refusal` says; refusals are
/// bad requests carrying the reason.
pub fn check_set_equip(parts: &Vec<i32>, items: &Vec<i32>, owned: bool, items_ok: &Vec<Option<bool>>) -> (r: Result<(), ServerError>)
    ensures
        match equip_refusal(parts@, items@, owned, items_ok@) {
            Some(e) => r matches Err(ServerError::InvalidRequest(m)) && m@ == e,
            None => r is Ok,
        },
{
    if !lists_ok(parts, items) {
        return Err(ServerError::InvalidRequest(String::from_str("Invalid equipment slots")));
    }
    if !owned {
        return Err(ServerError::InvalidRequest(String::from_str("HeroNotOwned")));
    }
    let mut i: usize = 0;
    while i < items_ok.len()
        invariant
            i <= items_ok@.len(),
            equip_lists_ok(parts@, items@),
            owned,
            first_item_refusal(items_ok@.take(i as int)) is None,
        decreases items_ok@.len() - i,
    {
        proof {
            assert(items_ok@.take(i + 1).drop_last() =~= items_ok@.take(i as int));
        }
        match items_ok[i] {
            None => {
                proof {
                    lemma_item_refusal_sticks(items_ok@, i + 1);
                }
                return Err(ServerError::InvalidRequest(String::from_str("EquipNotOwned")));
            },
            Some(false) => {
                proof {
                    lemma_item_refusal_sticks(items_ok@, i + 1);
                }
                return Err(ServerError::InvalidRequest(String::from_str("ImpossibleEquipItem")));
            },
            Some(true) => {},
        }
        i = i + 1;
    }
    proof {
        assert(items_ok@.take(items_ok@.len() as int) =~= items_ok@);
    }
    Ok(())
}

} // verus!

verus! {

fn wears_exec(slots: &Vec<i32>, k: usize, e: i32) -> (r: bool)
    requires
        10 * k + 10 <= slots@.len(),
    ensures
        r == wears(slots@, k as int, e),
{
    let len = slots.len();
    let mut j: usize = 0;
    while j < 10
        invariant
            10 * k + 10 <= slots@.len(),
            slots@.len() == len,
            j <= 10,
            forall|i: int| 0 <= i < j ==> #[trigger] slots@[10 * k + i] != e,
        decreases 10 - j,
    {
        if slots[10 * k + j] == e {
            proof {
                assert(slots@[10 * k + j] == e);
            }
            return true;
        }
        j = j + 1;
    }
    false
}

proof fn lemma_first_wearer_bounds(slots: Seq<i32>, n: int, e: i32)
    ensures
        first_wearer(slots, n, e) matches Some(k) ==> 0 <= k < n && wears(slots, k, e),
    decreases n,
{
    if n > 0 {
        lemma_first_wearer_bounds(slots, n - 1, e);
    }
}

fn find_wearer(slots: &Vec<i32>, n: usize, e: i32) -> (r: Option<usize>)
    requires
        slots@.len() == 10 * n,
    ensures
        r is Some <==> first_wearer(slots@, n as int, e) is Some,
        r is Some ==> first_wearer(slots@, n as int, e) == Some(r->0 as int) && r->0 < n,
{
    proof {
        lemma_first_wearer_bounds(slots@, n as int, e);
    }
    let mut k: usize = 0;
    while k < n
        invariant
            slots@.len() == 10 * n,
            k <= n,
            first_wearer(slots@, k as int, e) is None,
        decreases n - k,
    {
        if wears_exec(slots, k, e) {
            proof {
                assert(first_wearer(slots@, k + 1, e) == Some(k as int));
                lemma_wearer_sticks(slots@, k + 1, n as int, e);
            }
            return Some(k);
        }
        k = k + 1;
    }
    None
}

proof fn lemma_wearer_sticks(slots: Seq<i32>, m: int, n: int, e: i32)
    requires
        0 <= m <= n,
        first_wearer(slots, m, e) is Some,
    ensures
        first_wearer(slots, n, e) == first_wearer(slots, m, e),
    decreases n - m,
{
    if m < n {
        lemma_wearer_sticks(slots, m + 1, n, e);
    }
}

fn clear_hero(slots: &mut Vec<i32>, k: usize, e: i32)
    requires
        10 * k + 10 <= old(slots)@.len(),
    ensures
        final(slots)@ == cleared(old(slots)@, k as int, e),
{
    let ghost start = slots@;
    let len = slots.len();
    let mut j: usize = 0;
    while j < 10
        invariant
            10 * k + 10 <= start.len(),
            start.len() == len,
            slots@.len() == start.len(),
            j <= 10,
            forall|i: int| 0 <= i < start.len() ==> #[trigger] slots@[i]
                == (if 10 * k <= i < 10 * k + j && start[i] == e { 0i32 } else { start[i] }),
        decreases 10 - j,
    {
        if slots[10 * k + j] == e {
            slots.set(10 * k + j, 0);
        }
        j = j + 1;
    }
    proof {
        assert(slots@ =~= cleared(start, k as int, e));
    }
}

/// Carries out an equip request on the board for the hero at position `hp`, whose checks
/// passed: each item goes to its part in turn, as `equip_run` says. Gives the items
/// equipped (all of them, in order) and the items taken off.
pub fn set_equip(board: &mut EquipBoard, hp: usize, parts: &Vec<i32>, items: &Vec<i32>) -> (r: (Vec<i32>, Vec<i32>))
    requires
        board_ok(old(board).heroes@, old(board).slots@),
        hp < old(board).heroes@.len(),
        equip_lists_ok(parts@, items@),
    ensures
        final(board).heroes@ == old(board).heroes@,
        board_ok(final(board).heroes@, final(board).slots@),
        ({
            let (s, off) = equip_run(old(board).heroes@, old(board).slots@, hp as int, parts@, items@, parts@.len() as int);
            &&& final(board).slots@ == s
            &&& r.1@ == off
        }),
        r.0@ == items@,
{
    let ghost heroes = board.heroes@;
    let ghost start = board.slots@;
    let n = board.heroes.len();
    let len = board.slots.len();
    let mut equipped: Vec<i32> = Vec::new();
    let mut off: Vec<i32> = Vec::new();
    let mut i: usize = 0;
    while i < parts.len()
        invariant
            board.heroes@ == heroes,
            n == heroes.len(),
            board.slots@.len() == len,
            board_ok(heroes, board.slots@),
            hp < n,
            equip_lists_ok(parts@, items@),
            i <= parts@.len(),
            ({
                let (s, o) = equip_run(heroes, start, hp as int, parts@, items@, i as int);
                board.slots@ == s && off@ == o
            }),
            equipped@ == items@.take(i as int),
        decreases parts@.len() - i,
    {
        let e = items[i];
        let p = parts[i] as usize;
        let ghost s0 = board.slots@;
        let ghost o0 = off@;
        match find_wearer(&board.slots, n, e) {
            Some(o) => {
                if board.heroes[o] != board.heroes[hp] {
                    clear_hero(&mut board.slots, o, e);
                    off.push(e);
                }
            },
            None => {},
        }
        let cur = board.slots[10 * hp + p];
        if cur != 0 && cur != e {
            off.push(cur);
        }
        board.slots.set(10 * hp + p, e);
        equipped.push(e);
        proof {
            let (s2, o2) = equip_step(heroes, s0, hp as int, p as int, e);
            assert(board.slots@ == s2);
            assert(off@ =~= o0 + o2);
            assert(items@.take(i + 1) =~= items@.take(i as int).push(e));
        }
        i = i + 1;
    }
    proof {
        assert(items@.take(items@.len() as int) =~= items@);
    }
    (equipped, off)
}

/// Serves an equip request for the hero at board position `hp`: checks it as
/// `check_set_equip` does (`owned` tells whether the player owns the hero, `items_ok[i]`
/// whether item `i` is in the player's bag and wearable), leaving the board as it was on a
/// refusal, then equips as `set_equip` does.
pub fn equip_request(board: &mut EquipBoard, hp: usize, parts: &Vec<i32>, items: &Vec<i32>, owned: bool,
    items_ok: &Vec<Option<bool>>) -> (r: Result<(Vec<i32>, Vec<i32>), ServerError>)
    requires
        board_ok(old(board).heroes@, old(board).slots@),
        owned ==> hp < old(board).heroes@.len(),
    ensures
        match equip_refusal(parts@, items@, owned, items_ok@) {
            Some(e) => r matches Err(ServerError::InvalidRequest(m)) && m@ == e
                && final(board).heroes@ == old(board).heroes@ && final(board).slots@ == old(board).slots@,
            None => r is Ok && final(board).heroes@ == old(board).heroes@ && ({
                let (s, off) = equip_run(old(board).heroes@, old(board).slots@, hp as int, parts@, items@, parts@.len() as int);
                &&& final(board).slots@ == s
                &&& (r->Ok_0).1@ == off
                &&& (r->Ok_0).0@ == items@
            }),
        },
{
    match check_set_equip(parts, items, owned, items_ok) {
        Err(e) => Err(e),
        Ok(()) => Ok(set_equip(board, hp, parts, items)),
    }
}

/// The board after taking item `e` off: the first slot number (in order 1 to 10) at which
/// any hero wears it is emptied on every hero wearing it there. Gives the board and whether
/// anything came off.
pub open spec fn unequip_step(slots: Seq<i32>, n: int, e: i32) -> (Seq<i32>, bool) {
    match first_column(slots, n, e, 10) {
        Some(j) => (Seq::new(slots.len(), |i: int| if i % 10 == j && slots[i] == e { 0i32 } else { slots[i] }), true),
        None => (slots, false),
    }
}

/// The first slot number below `m` at which some hero wears `e`.
pub open spec fn first_column(slots: Seq<i32>, n: int, e: i32, m: int) -> Option<int>
    decreases m,
{
    if m <= 0 {
        None
    } else {
        match first_column(slots, n, e, m - 1) {
            Some(j) => Some(j),
            None => if exists|k: int| 0 <= k < n && #[trigger] slots[10 * k + (m - 1)] == e { Some(m - 1) } else { None },
        }
    }
}

} // verus!

verus! {

/// The board and the items taken off after the first `m` items of an unequip request.
pub open spec fn unequip_run(slots: Seq<i32>, n: int, items: Seq<i32>, m: int) -> (Seq<i32>, Seq<i32>)
    decreases m,
{
    if m <= 0 {
        (slots, Seq::empty())
    } else {
        let (s, off) = unequip_run(slots, n, items, m - 1);
        let (s2, hit) = unequip_step(s, n, items[m - 1]);
        (s2, if hit { off.push(items[m - 1]) } else { off })
    }
}

fn column_worn(slots: &Vec<i32>, n: usize, e: i32, j: usize) -> (r: bool)
    requires
        slots@.len() == 10 * n,
        j < 10,
    ensures
        r == exists|k: int| 0 <= k < n && #[trigger] slots@[10 * k + j] == e,
{
    let len = slots.len();
    let mut k: usize = 0;
    while k < n
        invariant
            slots@.len() == 10 * n,
            slots@.len() == len,
            j < 10,
            k <= n,
            forall|x: int| 0 <= x < k ==> #[trigger] slots@[10 * x + j] != e,
        decreases n - k,
    {
        if slots[10 * k + j] == e {
            proof {
                assert(slots@[10 * k + j] == e);
            }
            return true;
        }
        k = k + 1;
    }
    false
}

proof fn lemma_column_sticks(slots: Seq<i32>, n: int, e: i32, a: int, b: int)
    requires
        0 <= a <= b,
        first_column(slots, n, e, a) is Some,
    ensures
        first_column(slots, n, e, b) == first_column(slots, n, e, a),
    decreases b - a,
{
    if a < b {
        lemma_column_sticks(slots, n, e, a + 1, b);
    }
}

/// Takes items off whoever wears them, in turn, as `unequip_run` says. Gives the items
/// that came off.
pub fn unset_equip(board: &mut EquipBoard, items: &Vec<i32>) -> (r: Vec<i32>)
    requires
        board_ok(old(board).heroes@, old(board).slots@),
    ensures
        final(board).heroes@ == old(board).heroes@,
        board_ok(final(board).heroes@, final(board).slots@),
        ({
            let (s, off) = unequip_run(old(board).slots@, old(board).heroes@.len() as int, items@, items@.len() as int);
            &&& final(board).slots@ == s
            &&& r@ == off
        }),
{
    let ghost heroes = board.heroes@;
    let ghost start = board.slots@;
    let n = board.heroes.len();
    let len = board.slots.len();
    let mut off: Vec<i32> = Vec::new();
    let mut m: usize = 0;
    while m < items.len()
        invariant
            board.heroes@ == heroes,
            n == heroes.len(),
            board.slots@.len() == len,
            board_ok(heroes, board.slots@),
            m <= items@.len(),
            ({
                let (s, o) = unequip_run(start, n as int, items@, m as int);
                board.slots@ == s && off@ == o
            }),
        decreases items@.len() - m,
    {
        let e = items[m];
        let ghost s0 = board.slots@;
        let mut found: Option<usize> = None;
        let mut j: usize = 0;
        while j < 10
            invariant
                board.heroes@ == heroes,
                board.slots@ == s0,
                board.slots@.len() == 10 * n,
                j <= 10,
                found is None ==> first_column(s0, n as int, e, j as int) is None,
                found is Some ==> first_column(s0, n as int, e, j as int) == Some(found->0 as int) && found->0 < 10,
            decreases 10 - j,
        {
            if found.is_none() && column_worn(&board.slots, n, e, j) {
                found = Some(j);
            }
            j = j + 1;
        }
        match found {
            Some(col) => {
                let mut k: usize = 0;
                while k < n
                    invariant
                        board.heroes@ == heroes,
                        board.slots@.len() == s0.len(),
                        s0.len() == 10 * n,
                        s0.len() == len,
                        col < 10,
                        k <= n,
                        forall|i: int| 0 <= i < s0.len() ==> #[trigger] board.slots@[i]
                            == (if i < 10 * k && i % 10 == col && s0[i] == e { 0i32 } else { s0[i] }),
                    decreases n - k,
                {
                    if board.slots[10 * k + col] == e {
                        board.slots.set(10 * k + col, 0);
                    }
                    proof {
                        assert forall|i: int| 0 <= i < s0.len() implies #[trigger] board.slots@[i]
                            == (if i < 10 * (k + 1) && i % 10 == col && s0[i] == e { 0i32 } else { s0[i] }) by {
                            if i == 10 * k + col {
                            } else if 10 * k <= i < 10 * (k + 1) {
                                assert(i % 10 != col) by {
                                    assert((i - 10 * k) % 10 == i % 10) by (nonlinear_arith)
                                        requires
                                            k >= 0,
                                            10 * k <= i;
                                }
                            }
                        }
                    }
                    k = k + 1;
                }
                off.push(e);
                proof {
                    assert(board.slots@ =~= Seq::new(s0.len(), |i: int| if i % 10 == col && s0[i] == e { 0i32 } else { s0[i] }));
                }
            },
            None => {},
        }
        m = m + 1;
    }
    off
}

} // verus!

verus! {

/// True when no hero appears twice on the board.
pub open spec fn heroes_distinct(heroes: Seq<i32>) -> bool {
    forall|a: int, b: int| 0 <= a < b < heroes.len() ==> heroes[a] != heroes[b]
}

proof fn lemma_equip_run_len(heroes: Seq<i32>, slots: Seq<i32>, hp: int, parts: Seq<i32>, items: Seq<i32>, n: int)
    requires
        board_ok(heroes, slots),
        0 <= hp < heroes.len(),
        equip_lists_ok(parts, items),
        0 <= n <= parts.len(),
    ensures
        equip_run(heroes, slots, hp, parts, items, n).0.len() == slots.len(),
    decreases n,
{
    if n > 0 {
        lemma_equip_run_len(heroes, slots, hp, parts, items, n - 1);
    }
}

/// An equip request leaves every requested item in its requested slot of the hero.
pub proof fn lemma_equipped_in_place(heroes: Seq<i32>, slots: Seq<i32>, hp: int, parts: Seq<i32>, items: Seq<i32>, n: int)
    requires
        board_ok(heroes, slots),
        heroes_distinct(heroes),
        0 <= hp < heroes.len(),
        equip_lists_ok(parts, items),
        0 <= n <= parts.len(),
    ensures
        forall|i: int| 0 <= i < n ==> #[trigger] equip_run(heroes, slots, hp, parts, items, n).0[10 * hp + parts[i]] == items[i],
    decreases n,
{
    if n > 0 {
        lemma_equipped_in_place(heroes, slots, hp, parts, items, n - 1);
        lemma_equip_run_len(heroes, slots, hp, parts, items, n - 1);
        let s = equip_run(heroes, slots, hp, parts, items, n - 1).0;
        let e = items[n - 1];
        let p = parts[n - 1] as int;
        let s1 = match first_wearer(s, heroes.len() as int, e) {
            Some(o) => if heroes[o] != heroes[hp] { cleared(s, o, e) } else { s },
            None => s,
        };
        lemma_first_wearer_bounds(s, heroes.len() as int, e);
        assert forall|i: int| 0 <= i < n implies #[trigger] equip_run(heroes, slots, hp, parts, items, n).0[10 * hp + parts[i]] == items[i] by {
            if i < n - 1 {
                let q = parts[i] as int;
                assert(q != p);
                assert(s[10 * hp + q] == items[i]);
                match first_wearer(s, heroes.len() as int, e) {
                    Some(o) => {
                        if heroes[o] != heroes[hp] {
                            assert(o != hp);
                            assert(!(10 * o <= 10 * hp + q < 10 * o + 10)) by (nonlinear_arith)
                                requires
                                    o != hp,
                                    0 <= q < 10,
                                    0 <= o,
                                    0 <= hp;
                            assert(s1[10 * hp + q] == s[10 * hp + q]);
                        }
                    },
                    None => {},
                }
            }
        }
    }
}

} // verus!
