//! Consumable items: renaming tickets, equipment transition and ability tickets, and
//! flasks.
use vstd::prelude::*;
use crate::error::{rule, is_rule, ServerError};
use crate::forms::Request;
use vstd::string::StrSliceExecFns;

verus! {

/// True when `c` is white space as `char::is_whitespace` says: the Unicode `White_Space`
/// characters.
pub open spec fn is_space(c: char) -> bool {
    let u = c as u32;
    (0x9 <= u <= 0xD) || u == 0x20 || u == 0x85 || u == 0xA0 || u == 0x1680
        || (0x2000 <= u <= 0x200A) || u == 0x2028 || u == 0x2029 || u == 0x202F
        || u == 0x205F || u == 0x3000
}

/// True when `c` is a control character as `char::is_control` says (general category
/// `Cc`).
pub open spec fn is_control(c: char) -> bool {
    let u = c as u32;
    u <= 0x1F || (0x7F <= u <= 0x9F)
}

fn space(c: char) -> (r: bool)
    ensures
        r == is_space(c),
{
    let u = c as u32;
    (0x9 <= u && u <= 0xD) || u == 0x20 || u == 0x85 || u == 0xA0 || u == 0x1680
        || (0x2000 <= u && u <= 0x200A) || u == 0x2028 || u == 0x2029 || u == 0x202F
        || u == 0x205F || u == 0x3000
}

/// The first position, from `k` on, of a character that is not white space.
pub open spec fn lead(s: Seq<char>, k: int) -> int
    decreases s.len() - k,
{
    if k < 0 || k >= s.len() {
        s.len() as int
    } else if !is_space(s[k]) {
        k
    } else {
        lead(s, k + 1)
    }
}

/// The end of `s` without trailing white space, looking back from `k` but not before
/// `low`.
pub open spec fn tail_end(s: Seq<char>, low: int, k: int) -> int
    decreases k - low,
{
    if k <= low {
        low
    } else if !is_space(s[k - 1]) {
        k
    } else {
        tail_end(s, low, k - 1)
    }
}

/// `s` without white space at either end, as `str::trim` gives it.
pub open spec fn trimmed(s: Seq<char>) -> Seq<char> {
    let a = lead(s, 0);
    s.subrange(a, tail_end(s, a, s.len() as int))
}

proof fn lemma_lead_bounds(s: Seq<char>, k: int)
    requires
        0 <= k <= s.len(),
    ensures
        k <= lead(s, k) <= s.len(),
    decreases s.len() - k,
{
    if k < s.len() && is_space(s[k]) {
        lemma_lead_bounds(s, k + 1);
    }
}

proof fn lemma_tail_bounds(s: Seq<char>, low: int, k: int)
    requires
        0 <= low <= k <= s.len(),
    ensures
        low <= tail_end(s, low, k) <= k,
    decreases k - low,
{
    if k > low && is_space(s[k - 1]) {
        lemma_tail_bounds(s, low, k - 1);
    }
}

/// Cuts white space from both ends of `text`, as `str::trim` does.
pub fn trim(text: &str) -> (r: String)
    ensures
        r@ == trimmed(text@),
{
    let n = text.unicode_len();
    let mut a: usize = 0;
    while a < n && space(text.get_char(a))
        invariant
            n == text@.len(),
            a <= n,
            lead(text@, 0) == lead(text@, a as int),
        decreases n - a,
    {
        a = a + 1;
    }
    proof {
        lemma_lead_bounds(text@, 0);
    }
    let mut b: usize = n;
    while b > a && space(text.get_char(b - 1))
        invariant
            n == text@.len(),
            a <= b <= n,
            a == lead(text@, 0),
            tail_end(text@, a as int, n as int) == tail_end(text@, a as int, b as int),
        decreases b - a,
    {
        b = b - 1;
    }
    String::from_str(text.substring_char(a, b))
}

/// True when a name holds a character that names may not hold: a control character or
/// one of `<`, `>`, `[`, `]`.
pub open spec fn bad_name(s: Seq<char>) -> bool {
    exists|k: int| 0 <= k < s.len() && (is_control(#[trigger] s[k]) || s[k] == '<' || s[k] == '>' || s[k] == '[' || s[k] == ']')
}

/// Checks a new nickname (or guild name, `guild`) given with a renaming ticket of item
/// type `item_type` (none for an unknown item): the ticket must be of the right type (24
/// for a nickname, 25 for a guild name), and the name, trimmed, from `min` to `max`
/// characters with none a name may not hold. Gives the trimmed name.
pub fn rename_check(item_type: Option<i64>, guild: bool, text: &str, min: i64, max: i64) -> (r: Result<String, ServerError>)
    ensures
        match item_type {
            None => r is Err && is_rule(r->Err_0, "ItemDataNotFound"@),
            Some(t) => if t != (if guild { 25int } else { 24int }) {
                r is Err && is_rule(r->Err_0, "ItemTypeMismatch"@)
            } else {
                let name = trimmed(text@);
                if name.len() < min {
                    r is Err && is_rule(r->Err_0, "TooShortName"@)
                } else if name.len() > max {
                    r is Err && is_rule(r->Err_0, "TooLongName"@)
                } else if bad_name(name) {
                    r is Err && is_rule(r->Err_0, "InvalidName"@)
                } else {
                    r is Ok && r->Ok_0@ == name
                }
            },
        },
{
    let t = match item_type {
        None => { return Err(rule("ItemDataNotFound")); },
        Some(t) => t,
    };
    let want: i64 = if guild { 25 } else { 24 };
    if t != want {
        return Err(rule("ItemTypeMismatch"));
    }
    let name = trim(text);
    let n = name.as_str().unicode_len();
    if (n as i128) < (min as i128) {
        return Err(rule("TooShortName"));
    }
    if (n as i128) > (max as i128) {
        return Err(rule("TooLongName"));
    }
    let mut k: usize = 0;
    while k < n
        invariant
            n == name@.len(),
            k <= n,
            item_type == Some(t),
            t == (if guild { 25int } else { 24int }),
            name@ == trimmed(text@),
            min <= name@.len() <= max,
            forall|j: int| 0 <= j < k ==> !(is_control(#[trigger] name@[j]) || name@[j] == '<' || name@[j] == '>' || name@[j] == '[' || name@[j] == ']'),
        decreases n - k,
    {
        let c = name.as_str().get_char(k);
        let u = c as u32;
        if u <= 0x1F || (0x7F <= u && u <= 0x9F) || c == '<' || c == '>' || c == '[' || c == ']' {
            proof {
                assert(is_control(name@[k as int]) || name@[k as int] == '<' || name@[k as int] == '>' || name@[k as int] == '[' || name@[k as int] == ']');
                assert(bad_name(name@));
            }
            return Err(rule("InvalidName"));
        }
        k = k + 1;
    }
    Ok(name)
}

} // verus!

verus! {

/// A transition ticket of the ticket table.
pub struct TransitionTicket {
    /// 1 for soul weapons, 0 for awakening.
    pub kind: i64,
    /// `FixedGiveItem`: the items that may give their stars.
    pub fixed_give: Vec<i64>,
    /// `FixedGetItem`: the items that may take them.
    pub fixed_get: Vec<i64>,
    /// `SelectAbleDetailIndex`.
    pub details: Vec<i64>,
    /// `ExceptItemGroup1`.
    pub except: Vec<i64>,
    pub least_star: i64,
}

/// One side of a transition: the equipment's item, lock, stars and failure bonus, its
/// detail index (none when the equipment table lacks the item), and whether it has an
/// unconfirmed option.
pub struct TransitionSide {
    pub item: i64,
    pub locked: i32,
    pub star: i32,
    pub fail_bonus: i32,
    pub detail: Option<i64>,
    pub pending: bool,
}

/// Reads the two slots of a transition after checking the ticket: a known ticket
/// (`ItemDataNotFound`) of the right kind (`ItemTypeMismatch`), and two different slots
/// (`InvalidEquipItem`).
pub fn transition_slots(ticket: &Option<TransitionTicket>, soul: bool, req: &Request) -> (r: Result<(i64, i64), ServerError>)
    ensures
        match *ticket {
            None => r is Err && is_rule(r->Err_0, "ItemDataNotFound"@),
            Some(t) => if t.kind != (if soul { 1int } else { 0int }) {
                r is Err && is_rule(r->Err_0, "ItemTypeMismatch"@)
            } else {
                match (req.number_of("SourceEquipItemSlotIndex"@, 0), req.number_of("TargetEquipItemSlotIndex"@, 0)) {
                    (Some(a), Some(b)) => if a == b {
                        r is Err && is_rule(r->Err_0, "InvalidEquipItem"@)
                    } else {
                        r == Ok::<(i64, i64), ServerError>((a, b))
                    },
                    _ => r is Err && is_rule(r->Err_0, "InvalidValue"@),
                }
            },
        },
{
    let t = match ticket {
        None => { return Err(rule("ItemDataNotFound")); },
        Some(t) => t,
    };
    let want: i64 = if soul { 1 } else { 0 };
    if t.kind != want {
        return Err(rule("ItemTypeMismatch"));
    }
    let a = req.number("SourceEquipItemSlotIndex", 0)?;
    let b = req.number("TargetEquipItemSlotIndex", 0)?;
    if a == b {
        return Err(rule("InvalidEquipItem"));
    }
    Ok((a, b))
}

fn lists(v: &Vec<i64>, x: i64) -> (r: bool)
    ensures
        r == v@.contains(x),
{
    let mut i: usize = 0;
    while i < v.len()
        invariant
            i <= v@.len(),
            forall|k: int| 0 <= k < i ==> v@[k] != x,
        decreases v@.len() - i,
    {
        if v[i] == x {
            return true;
        }
        i = i + 1;
    }
    false
}

/// The checks of one side against the items the ticket allows for it: a known item
/// (`ItemDataNotFound`), unlocked, of 5 stars at most, allowed, of an allowed detail
/// (`InvalidEquipItem`), with no unconfirmed option (`UnconfirmedOption`).
pub open spec fn side_of(allowed: Seq<i64>, details: Seq<i64>, s: TransitionSide) -> Result<(), Seq<char>> {
    match s.detail {
        None => Err("ItemDataNotFound"@),
        Some(d) => if s.locked != 0 || s.star > 5 || !allowed.contains(s.item) || !details.contains(d) {
            Err("InvalidEquipItem"@)
        } else if s.pending {
            Err("UnconfirmedOption"@)
        } else {
            Ok(())
        },
    }
}

/// The checks of both sides of a transition: each side in turn, then both inside or
/// both outside the excepted group (`InvalidEquipItem`).
pub open spec fn sides_of(t: TransitionTicket, a: TransitionSide, b: TransitionSide) -> Result<(), Seq<char>> {
    match side_of(t.fixed_give@, t.details@, a) {
        Err(e) => Err(e),
        Ok(_) => match side_of(t.fixed_get@, t.details@, b) {
            Err(e) => Err(e),
            Ok(_) => if t.except@.contains(a.item) != t.except@.contains(b.item) { Err("InvalidEquipItem"@) } else { Ok(()) },
        },
    }
}

fn side_check(allowed: &Vec<i64>, details: &Vec<i64>, s: &TransitionSide) -> (r: Result<(), ServerError>)
    ensures
        match side_of(allowed@, details@, *s) {
            Ok(_) => r is Ok,
            Err(e) => r is Err && is_rule(r->Err_0, e),
        },
{
    let d = match s.detail {
        None => { return Err(rule("ItemDataNotFound")); },
        Some(d) => d,
    };
    if s.locked != 0 || s.star > 5 || !lists(allowed, s.item) || !lists(details, d) {
        return Err(rule("InvalidEquipItem"));
    }
    if s.pending {
        return Err(rule("UnconfirmedOption"));
    }
    Ok(())
}

/// Checks both sides of a transition; see `sides_of`.
pub fn transition_sides(t: &TransitionTicket, a: &TransitionSide, b: &TransitionSide) -> (r: Result<(), ServerError>)
    ensures
        match sides_of(*t, *a, *b) {
            Ok(_) => r is Ok,
            Err(e) => r is Err && is_rule(r->Err_0, e),
        },
{
    side_check(&t.fixed_give, &t.details, a)?;
    side_check(&t.fixed_get, &t.details, b)?;
    if lists(&t.except, a.item) != lists(&t.except, b.item) {
        return Err(rule("InvalidEquipItem"));
    }
    Ok(())
}

/// Moves the stars (and failure bonus) of an awakening transition: the source must reach
/// the ticket's least stars and have more stars than the target (`InvalidEquipItem`);
/// the two sides swap stars and bonuses.
pub fn star_swap(t: &TransitionTicket, a: &TransitionSide, b: &TransitionSide) -> (r: Result<((i32, i32), (i32, i32)), ServerError>)
    ensures
        if a.star < t.least_star || b.star >= a.star {
            r is Err && is_rule(r->Err_0, "InvalidEquipItem"@)
        } else {
            r == Ok::<((i32, i32), (i32, i32)), ServerError>(((b.star, b.fail_bonus), (a.star, a.fail_bonus)))
        },
{
    if (a.star as i64) < t.least_star || b.star >= a.star {
        return Err(rule("InvalidEquipItem"));
    }
    Ok(((b.star, b.fail_bonus), (a.star, a.fail_bonus)))
}

/// Checks the soul weapons of a soul transition: the source must have one with no renewal
/// pending, the target none pending (`InvalidEquipItem`), and the target must have one
/// (`SoulWeaponNotFound`). Each is given as whether a renewal is pending, none when the
/// slot has no soul weapon.
pub fn soul_sides(first: Option<bool>, second: Option<bool>) -> (r: Result<(), ServerError>)
    ensures
        if first is None || first == Some(true) || second == Some(true) {
            r is Err && is_rule(r->Err_0, "InvalidEquipItem"@)
        } else if second is None {
            r is Err && is_rule(r->Err_0, "SoulWeaponNotFound"@)
        } else {
            r is Ok
        },
{
    if first.is_none() || first == Some(true) || second == Some(true) {
        return Err(rule("InvalidEquipItem"));
    }
    if second.is_none() {
        return Err(rule("SoulWeaponNotFound"));
    }
    Ok(())
}

/// A soul weapon's grade and reinforcement level, and whether a renewal is pending.
pub struct SoulState {
    pub grade: i64,
    pub reinforce: i64,
    pub pending: bool,
}

/// The checks of a soul weapon ability ticket of kind `kind` (1 raises the grade, 2 the
/// reinforcement, 3 both) to `grade` and `level`: the equipment must be one the ticket
/// names when it names any (`InvalidEquipItem`), carry a soul weapon with no renewal
/// pending (`SoulWeaponNotFound`), and the ticket must raise what it raises
/// (`InvalidEquipItem`).
pub open spec fn ability_of(fixed: Seq<i64>, item: i64, info: Option<SoulState>, kind: i64, grade: i64, level: i64) -> Result<(), Seq<char>> {
    if fixed.len() > 0 && !fixed.contains(item) {
        Err("InvalidEquipItem"@)
    } else {
        match info {
            None => Err("SoulWeaponNotFound"@),
            Some(s) => if s.pending {
                Err("SoulWeaponNotFound"@)
            } else if (kind == 1 && grade <= s.grade) || (kind == 2 && level <= s.reinforce)
                || (kind == 3 && (grade < s.grade || level < s.reinforce)) {
                Err("InvalidEquipItem"@)
            } else {
                Ok(())
            },
        }
    }
}

/// Checks a soul weapon ability ticket; see `ability_of`.
pub fn ability_check(fixed: &Vec<i64>, item: i64, info: &Option<SoulState>, kind: i64, grade: i64, level: i64) -> (r: Result<(), ServerError>)
    ensures
        match ability_of(fixed@, item, *info, kind, grade, level) {
            Ok(_) => r is Ok,
            Err(e) => r is Err && is_rule(r->Err_0, e),
        },
{
    if fixed.len() > 0 && !lists(fixed, item) {
        return Err(rule("InvalidEquipItem"));
    }
    let s = match info {
        None => { return Err(rule("SoulWeaponNotFound")); },
        Some(s) => s,
    };
    if s.pending {
        return Err(rule("SoulWeaponNotFound"));
    }
    if (kind == 1 && grade <= s.grade) || (kind == 2 && level <= s.reinforce)
        || (kind == 3 && (grade < s.grade || level < s.reinforce)) {
        return Err(rule("InvalidEquipItem"));
    }
    Ok(())
}

/// What a flask item of the flask table says.
pub struct FlaskData {
    pub source_type: i64,
    pub reward_type: i64,
    pub flask_exp: i64,
    pub potion_item: i64,
    pub is_unequip: bool,
}

/// Checks equipping a flask on a hero whose flask is `current` (0 for none): the hero
/// must have none (`AlreadyEquipped`) and the flask must be known (`ItemDataNotFound`)
/// and fill from experience into a potion (`InvalidItemType`).
pub fn flask_equip_check(current: i64, data: &Option<FlaskData>) -> (r: Result<(), ServerError>)
    ensures
        if current != 0 {
            r is Err && is_rule(r->Err_0, "AlreadyEquipped"@)
        } else {
            match *data {
                None => r is Err && is_rule(r->Err_0, "ItemDataNotFound"@),
                Some(d) => if d.source_type != 1 || d.reward_type != 1 {
                    r is Err && is_rule(r->Err_0, "InvalidItemType"@)
                } else {
                    r is Ok
                },
            }
        },
{
    if current != 0 {
        return Err(rule("AlreadyEquipped"));
    }
    match data {
        None => Err(rule("ItemDataNotFound")),
        Some(d) => if d.source_type != 1 || d.reward_type != 1 { Err(rule("InvalidItemType")) } else { Ok(()) },
    }
}

/// Checks taking a hero's flask off: it must be known (`ItemDataNotFound`) and removable
/// (`CannotUnequip`).
pub fn flask_cancel_check(data: &Option<FlaskData>) -> (r: Result<(), ServerError>)
    ensures
        match *data {
            None => r is Err && is_rule(r->Err_0, "ItemDataNotFound"@),
            Some(d) => if !d.is_unequip { r is Err && is_rule(r->Err_0, "CannotUnequip"@) } else { r is Ok },
        },
{
    match data {
        None => Err(rule("ItemDataNotFound")),
        Some(d) => if !d.is_unequip { Err(rule("CannotUnequip")) } else { Ok(()) },
    }
}

/// What filling a flask does: the experience it holds after, and whether it filled (and
/// so gives its potion and comes off).
pub struct FlaskFill {
    pub before: i64,
    pub after: i64,
    pub filled: bool,
}

/// Fills the flask `id` (0 for none) holding `before` with `exp` experience: nothing for
/// no flask, no experience, or a flask that does not fill from experience; otherwise the
/// experience grows up to the flask's capacity, and the flask fills when it reaches it.
pub fn fill_flask(id: i64, before: i64, exp: i64, data: &Option<FlaskData>) -> (r: Result<Option<FlaskFill>, ServerError>)
    requires
        before + exp <= i64::MAX,
    ensures
        if id == 0 || exp <= 0 {
            r == Ok::<Option<FlaskFill>, ServerError>(None)
        } else {
            match *data {
                None => r is Err && is_rule(r->Err_0, "ItemDataNotFound"@),
                Some(d) => if d.source_type != 1 || d.flask_exp <= 0 {
                    r == Ok::<Option<FlaskFill>, ServerError>(None)
                } else {
                    let after = if before + exp < d.flask_exp { before + exp } else { d.flask_exp as int };
                    r is Ok && r->Ok_0 is Some && r->Ok_0->0.before == before && r->Ok_0->0.after == after
                        && r->Ok_0->0.filled == (after >= d.flask_exp)
                },
            }
        },
{
    if id == 0 || exp <= 0 {
        return Ok(None);
    }
    let d = match data {
        None => { return Err(rule("ItemDataNotFound")); },
        Some(d) => d,
    };
    if d.source_type != 1 || d.flask_exp <= 0 {
        return Ok(None);
    }
    let sum = before + exp;
    let after = if sum < d.flask_exp { sum } else { d.flask_exp };
    Ok(Some(FlaskFill { before, after, filled: after >= d.flask_exp }))
}

} // verus!
