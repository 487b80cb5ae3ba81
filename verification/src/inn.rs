//! The hero inn: befriending visiting heroes, recruiting them, and the daily roulette.
use vstd::prelude::*;
use crate::dice::{choose_multiple, random_below};
use crate::hero::HeroInfo;
use crate::text::{
    bounded_decimal, chars_of, decimal_value, int_text, lemma_int_text_reads_back,
    lemma_split_on_join, lemma_split_on_plain, parse_i32, push_int, split_on, str_eq,
};

verus! {

/// What a player does with a hero visiting the inn.
pub enum FriendlyActionType {
    NoAction,
    Greeting,
    Conversation,
    Gift,
    ClosenessGreeting,
    ClosenessConversation,
    ClosenessGift,
    ConnectTalk1,
    ConnectTalk2,
    ConnectTalk3,
}

impl FriendlyActionType {
    /// The action a number stands for, in declaration order from `NoAction` at 0; any other
    /// number stands for `NoAction`.
    pub open spec fn of_number(n: int) -> FriendlyActionType {
        if n == 1 { FriendlyActionType::Greeting }
        else if n == 2 { FriendlyActionType::Conversation }
        else if n == 3 { FriendlyActionType::Gift }
        else if n == 4 { FriendlyActionType::ClosenessGreeting }
        else if n == 5 { FriendlyActionType::ClosenessConversation }
        else if n == 6 { FriendlyActionType::ClosenessGift }
        else if n == 7 { FriendlyActionType::ConnectTalk1 }
        else if n == 8 { FriendlyActionType::ConnectTalk2 }
        else if n == 9 { FriendlyActionType::ConnectTalk3 }
        else { FriendlyActionType::NoAction }
    }

    /// The action a number stands for.
    pub fn from_number(n: i32) -> (r: FriendlyActionType)
        ensures
            r == Self::of_number(n as int),
    {
        if n == 1 { FriendlyActionType::Greeting }
        else if n == 2 { FriendlyActionType::Conversation }
        else if n == 3 { FriendlyActionType::Gift }
        else if n == 4 { FriendlyActionType::ClosenessGreeting }
        else if n == 5 { FriendlyActionType::ClosenessConversation }
        else if n == 6 { FriendlyActionType::ClosenessGift }
        else if n == 7 { FriendlyActionType::ConnectTalk1 }
        else if n == 8 { FriendlyActionType::ConnectTalk2 }
        else if n == 9 { FriendlyActionType::ConnectTalk3 }
        else { FriendlyActionType::NoAction }
    }
}

/// The action a client's action text names: an enum name, or else its number.
pub open spec fn action_of(s: Seq<char>) -> FriendlyActionType {
    if s == "Greeting"@ { FriendlyActionType::Greeting }
    else if s == "Conversation"@ { FriendlyActionType::Conversation }
    else if s == "Gift"@ { FriendlyActionType::Gift }
    else if s == "Closeness_Greeting"@ { FriendlyActionType::ClosenessGreeting }
    else if s == "Closeness_Conversation"@ { FriendlyActionType::ClosenessConversation }
    else if s == "Closeness_Gift"@ { FriendlyActionType::ClosenessGift }
    else if s == "Connect_Talk_1"@ { FriendlyActionType::ConnectTalk1 }
    else if s == "Connect_Talk_2"@ { FriendlyActionType::ConnectTalk2 }
    else if s == "Connect_Talk_3"@ { FriendlyActionType::ConnectTalk3 }
    else {
        match bounded_decimal(s, i32::MIN as int, i32::MAX as int) {
            Some(v) => FriendlyActionType::of_number(v),
            None => FriendlyActionType::NoAction,
        }
    }
}

/// Reads the action the client sent.
pub fn parse_action_string(action: &str) -> (r: FriendlyActionType)
    ensures
        r == action_of(action@),
{
    if str_eq(action, "Greeting") { FriendlyActionType::Greeting }
    else if str_eq(action, "Conversation") { FriendlyActionType::Conversation }
    else if str_eq(action, "Gift") { FriendlyActionType::Gift }
    else if str_eq(action, "Closeness_Greeting") { FriendlyActionType::ClosenessGreeting }
    else if str_eq(action, "Closeness_Conversation") { FriendlyActionType::ClosenessConversation }
    else if str_eq(action, "Closeness_Gift") { FriendlyActionType::ClosenessGift }
    else if str_eq(action, "Connect_Talk_1") { FriendlyActionType::ConnectTalk1 }
    else if str_eq(action, "Connect_Talk_2") { FriendlyActionType::ConnectTalk2 }
    else if str_eq(action, "Connect_Talk_3") { FriendlyActionType::ConnectTalk3 }
    else {
        match parse_i32(action) {
            Some(v) => FriendlyActionType::from_number(v),
            None => FriendlyActionType::NoAction,
        }
    }
}

/// The result of opening the inn.
pub enum RequestNewFriendlyHeroResult {
    Fail,
    CoolTimeMismatch,
    CannotRecruitHero,
    InFriendlyState,
    Success,
}

impl RequestNewFriendlyHeroResult {
    /// The name the client expects.
    pub open spec fn name(self) -> Seq<char> {
        match self {
            RequestNewFriendlyHeroResult::Fail => "Fail"@,
            RequestNewFriendlyHeroResult::CoolTimeMismatch => "CoolTimeMismatch"@,
            RequestNewFriendlyHeroResult::CannotRecruitHero => "CannotRecruitHero"@,
            RequestNewFriendlyHeroResult::InFriendlyState => "InFriendlyState"@,
            RequestNewFriendlyHeroResult::Success => "Success"@,
        }
    }

    /// The name the client expects.
    pub fn as_str(&self) -> (r: &'static str)
        ensures
            r@ == self.name(),
    {
        match self {
            RequestNewFriendlyHeroResult::Fail => "Fail",
            RequestNewFriendlyHeroResult::CoolTimeMismatch => "CoolTimeMismatch",
            RequestNewFriendlyHeroResult::CannotRecruitHero => "CannotRecruitHero",
            RequestNewFriendlyHeroResult::InFriendlyState => "InFriendlyState",
            RequestNewFriendlyHeroResult::Success => "Success",
        }
    }
}

/// The result of an action with a visiting hero.
pub enum DoHeroFriendlyResult {
    Fail,
    HeroIndexMismatch,
    AlreadyRecruited,
    HeroNotExist,
    CannotRecruit,
    HeroNotExistInFriendlyTable,
    HeroFriendlyPointMax,
    ActionNotReady,
    ActionNotExist,
    CostMismatch,
    Success,
}

impl DoHeroFriendlyResult {
    /// The name the client expects.
    pub open spec fn name(self) -> Seq<char> {
        match self {
            DoHeroFriendlyResult::Fail => "Fail"@,
            DoHeroFriendlyResult::HeroIndexMismatch => "HeroIndexMismatch"@,
            DoHeroFriendlyResult::AlreadyRecruited => "AlreadyRecruited"@,
            DoHeroFriendlyResult::HeroNotExist => "HeroNotExist"@,
            DoHeroFriendlyResult::CannotRecruit => "CannotRecruit"@,
            DoHeroFriendlyResult::HeroNotExistInFriendlyTable => "HeroNotExistInFriendlyTable"@,
            DoHeroFriendlyResult::HeroFriendlyPointMax => "HeroFriendlyPointMax"@,
            DoHeroFriendlyResult::ActionNotReady => "ActionNotReady"@,
            DoHeroFriendlyResult::ActionNotExist => "ActionNotExist"@,
            DoHeroFriendlyResult::CostMismatch => "CostMismatch"@,
            DoHeroFriendlyResult::Success => "Success"@,
        }
    }

    /// The name the client expects.
    pub fn as_str(&self) -> (r: &'static str)
        ensures
            r@ == self.name(),
    {
        match self {
            DoHeroFriendlyResult::Fail => "Fail",
            DoHeroFriendlyResult::HeroIndexMismatch => "HeroIndexMismatch",
            DoHeroFriendlyResult::AlreadyRecruited => "AlreadyRecruited",
            DoHeroFriendlyResult::HeroNotExist => "HeroNotExist",
            DoHeroFriendlyResult::CannotRecruit => "CannotRecruit",
            DoHeroFriendlyResult::HeroNotExistInFriendlyTable => "HeroNotExistInFriendlyTable",
            DoHeroFriendlyResult::HeroFriendlyPointMax => "HeroFriendlyPointMax",
            DoHeroFriendlyResult::ActionNotReady => "ActionNotReady",
            DoHeroFriendlyResult::ActionNotExist => "ActionNotExist",
            DoHeroFriendlyResult::CostMismatch => "CostMismatch",
            DoHeroFriendlyResult::Success => "Success",
        }
    }
}

/// The result of changing the hero to recruit.
pub enum ChangeRecruitHeroResult {
    Fail,
    AlreadyHave,
    HeroNotExist,
    CannotRecruit,
    Success,
}

impl ChangeRecruitHeroResult {
    /// The name the client expects.
    pub open spec fn name(self) -> Seq<char> {
        match self {
            ChangeRecruitHeroResult::Fail => "Fail"@,
            ChangeRecruitHeroResult::AlreadyHave => "AlreadyHave"@,
            ChangeRecruitHeroResult::HeroNotExist => "HeroNotExist"@,
            ChangeRecruitHeroResult::CannotRecruit => "CannotRecruit"@,
            ChangeRecruitHeroResult::Success => "Success"@,
        }
    }

    /// The name the client expects.
    pub fn as_str(&self) -> (r: &'static str)
        ensures
            r@ == self.name(),
    {
        match self {
            ChangeRecruitHeroResult::Fail => "Fail",
            ChangeRecruitHeroResult::AlreadyHave => "AlreadyHave",
            ChangeRecruitHeroResult::HeroNotExist => "HeroNotExist",
            ChangeRecruitHeroResult::CannotRecruit => "CannotRecruit",
            ChangeRecruitHeroResult::Success => "Success",
        }
    }
}

} // verus!

verus! {

/// The friendly points each basic action earns, and the most friendly points a visiting
/// hero can reach.
pub struct FriendlyTable {
    pub greeting: i32,
    pub conversation: i32,
    pub gift: i32,
    pub max_friendly_point: i32,
}

/// True when no entry of the table is negative.
pub open spec fn valid_table(t: FriendlyTable) -> bool {
    t.greeting >= 0 && t.conversation >= 0 && t.gift >= 0 && t.max_friendly_point >= 0
}

/// The most closeness an owned hero can reach.
pub open spec fn max_closeness() -> int {
    1000
}

/// The points an action earns.
pub open spec fn points_for(a: FriendlyActionType, t: FriendlyTable) -> int {
    match a {
        FriendlyActionType::Greeting => t.greeting as int,
        FriendlyActionType::Conversation => t.conversation as int,
        FriendlyActionType::Gift => t.gift as int,
        FriendlyActionType::ClosenessGreeting => 25,
        FriendlyActionType::ClosenessConversation => 50,
        FriendlyActionType::ClosenessGift => 100,
        _ => 0,
    }
}

/// The friendship points an action costs.
pub open spec fn friendship_cost(a: FriendlyActionType) -> int {
    match a {
        FriendlyActionType::Conversation => 160,
        FriendlyActionType::ClosenessConversation => 50,
        _ => 0,
    }
}

/// The gold an action costs.
pub open spec fn gold_cost(a: FriendlyActionType) -> int {
    match a {
        FriendlyActionType::Gift => 40000,
        FriendlyActionType::ClosenessGift => 25000,
        _ => 0,
    }
}

/// True when the player cannot pay what an action charges: the friendship points of a
/// conversation, or the gold of a gift. A free action is never short, whatever the
/// balances.
pub open spec fn short_of(a: FriendlyActionType, st: FriendlyState) -> bool {
    ||| (friendship_cost(a) > 0 && st.friendship_point < friendship_cost(a))
    ||| (gold_cost(a) > 0 && st.gold < gold_cost(a))
}

/// Which last-action time an action stamps.
pub enum FriendlyTimeColumn {
    Greeting,
    Conversation,
    Gift,
}

/// The last-action time an action stamps (greeting for the actions without one).
pub open spec fn time_column_of(a: FriendlyActionType) -> FriendlyTimeColumn {
    match a {
        FriendlyActionType::Conversation => FriendlyTimeColumn::Conversation,
        FriendlyActionType::ClosenessConversation => FriendlyTimeColumn::Conversation,
        FriendlyActionType::Gift => FriendlyTimeColumn::Gift,
        FriendlyActionType::ClosenessGift => FriendlyTimeColumn::Gift,
        _ => FriendlyTimeColumn::Greeting,
    }
}

/// What the inn knows when an action arrives.
pub struct FriendlyState {
    /// The hero's closeness when the player owns the hero.
    pub owned_closeness: Option<i32>,
    /// The friendly points of the inn's current hero, when the player has an inn record.
    pub friendly_point: Option<i32>,
    pub friendship_point: i64,
    pub gold: i64,
}

/// What an accepted action changes.
pub struct FriendlyPlan {
    /// The inn record's new friendly points.
    pub friendly_point: i32,
    pub time_column: FriendlyTimeColumn,
    /// The friendship-point balance after the cost, when the action costs friendship points.
    pub friendship_after: Option<i64>,
    /// The gold balance after the cost, when the action costs gold.
    pub gold_after: Option<i64>,
    /// The owned hero's new closeness.
    pub closeness: Option<i32>,
}

/// The smaller of two integers.
pub open spec fn min_int(a: int, b: int) -> int {
    if a <= b { a } else { b }
}

/// The hero index a client sent as text: its `i32` value, or 0 when absent or unreadable.
pub open spec fn index_text_value(t: Option<Seq<char>>, default: int) -> int {
    match t {
        Some(s) => match bounded_decimal(s, i32::MIN as int, i32::MAX as int) {
            Some(v) => v,
            None => default,
        },
        None => default,
    }
}

/// Reads an index sent as text, with `default` for a missing or unreadable one.
pub fn index_text(t: &Option<String>, default: i32) -> (r: i32)
    ensures
        r == index_text_value(match t { Some(s) => Some(s@), None => None }, default as int),
{
    match t {
        Some(s) => match parse_i32(s.as_str()) {
            Some(v) => v,
            None => default,
        },
        None => default,
    }
}

/// Reads the hero and the action of a friendly request; a missing or zero hero index is
/// answered `HeroIndexMismatch`.
pub fn friendly_request(hero_index: &Option<String>, action: &Option<String>)
    -> (r: Result<(i32, FriendlyActionType), DoHeroFriendlyResult>)
    ensures
        ({
            let h = index_text_value(match hero_index { Some(s) => Some(s@), None => None }, 0);
            let a = match action { Some(s) => action_of(s@), None => FriendlyActionType::NoAction };
            if h == 0 {
                r == Err::<(i32, FriendlyActionType), DoHeroFriendlyResult>(DoHeroFriendlyResult::HeroIndexMismatch)
            } else {
                r == Ok::<(i32, FriendlyActionType), DoHeroFriendlyResult>((h as i32, a))
            }
        }),
{
    let h = index_text(hero_index, 0);
    let a = match action {
        Some(s) => parse_action_string(s.as_str()),
        None => FriendlyActionType::NoAction,
    };
    if h == 0 {
        return Err(DoHeroFriendlyResult::HeroIndexMismatch);
    }
    Ok((h, a))
}

/// The closeness of hero `h` among the owned heroes `(index, closeness)`, when owned.
pub open spec fn closeness_of(owned: Seq<(i32, i32)>, h: i32) -> Option<i32>
    decreases owned.len(),
{
    if owned.len() == 0 {
        None
    } else if owned[0].0 == h {
        Some(owned[0].1)
    } else {
        closeness_of(owned.drop_first(), h)
    }
}

fn find_closeness(owned: &Vec<(i32, i32)>, h: i32) -> (r: Option<i32>)
    ensures
        r == closeness_of(owned@, h),
{
    let mut i: usize = 0;
    proof {
        assert(owned@.skip(0) =~= owned@);
    }
    while i < owned.len()
        invariant
            i <= owned@.len(),
            closeness_of(owned@, h) == closeness_of(owned@.skip(i as int), h),
        decreases owned@.len() - i,
    {
        proof {
            assert(owned@.skip(i as int).drop_first() =~= owned@.skip(i + 1));
        }
        if owned[i].0 == h {
            return Some(owned[i].1);
        }
        i = i + 1;
    }
    None
}

/// Serves an action with a visiting hero from the request's raw fields: a missing or zero
/// hero index is refused with `HeroIndexMismatch` before anything is read; otherwise the
/// action is decided as `do_hero_friendly` does for the player's state, the hero's closeness
/// coming from the owned heroes `(index, closeness)`, and `friendly_point` from the inn
/// record when there is one.
pub fn hero_friendly(hero_index: &Option<String>, action: &Option<String>, table: &FriendlyTable,
    owned: &Vec<(i32, i32)>, friendly_point: Option<i32>, friendship_point: i64, gold: i64)
    -> (r: Result<FriendlyPlan, DoHeroFriendlyResult>)
    requires
        valid_table(*table),
    ensures
        ({
            let h = index_text_value(match hero_index { Some(s) => Some(s@), None => None }, 0);
            let a = match action { Some(s) => action_of(s@), None => FriendlyActionType::NoAction };
            if h == 0 {
                r == Err::<FriendlyPlan, DoHeroFriendlyResult>(DoHeroFriendlyResult::HeroIndexMismatch)
            } else {
                friendly_outcome(a, *table, (FriendlyState {
                    owned_closeness: closeness_of(owned@, h as i32),
                    friendly_point,
                    friendship_point,
                    gold,
                }), r)
            }
        }),
{
    let (h, a) = friendly_request(hero_index, action)?;
    let st = FriendlyState { owned_closeness: find_closeness(owned, h), friendly_point, friendship_point, gold };
    do_hero_friendly(a, table, &st)
}

/// What deciding an action with a visiting hero answers, given the player's state `st`:
/// refused without an inn record (`HeroNotExistInFriendlyTable`) or when the player cannot
/// pay what it charges (`CostMismatch`, see `short_of`); otherwise the cost is paid and the action's points go to
/// the inn record (capped at the table's maximum) or, for an owned hero, to its closeness
/// (capped at 1000).
pub open spec fn friendly_outcome(action: FriendlyActionType, table: FriendlyTable, st: FriendlyState,
    r: Result<FriendlyPlan, DoHeroFriendlyResult>) -> bool
{
    &&& (st.friendly_point is None
            ==> r == Err::<FriendlyPlan, DoHeroFriendlyResult>(DoHeroFriendlyResult::HeroNotExistInFriendlyTable))
    &&& (st.friendly_point is Some && short_of(action, st)
            ==> r == Err::<FriendlyPlan, DoHeroFriendlyResult>(DoHeroFriendlyResult::CostMismatch))
    &&& (st.friendly_point is Some && !short_of(action, st)
            ==> r is Ok && ({
                let p = r->Ok_0;
                let current = st.friendly_point->0 as int;
                let gained = points_for(action, table);
                &&& p.friendly_point == (match st.owned_closeness {
                    Some(_) => current,
                    None => min_int(current + gained, table.max_friendly_point as int),
                })
                &&& p.closeness == (match st.owned_closeness {
                    Some(c) => Some(min_int(c + gained, max_closeness()) as i32),
                    None => None::<i32>,
                })
                &&& p.time_column == time_column_of(action)
                &&& p.friendship_after == (if friendship_cost(action) > 0 {
                    Some((st.friendship_point - friendship_cost(action)) as i64)
                } else {
                    None::<i64>
                })
                &&& p.gold_after == (if gold_cost(action) > 0 {
                    Some((st.gold - gold_cost(action)) as i64)
                } else {
                    None::<i64>
                })
            }))
}

/// Decides an action with a visiting hero: refused without an inn record
/// (`HeroNotExistInFriendlyTable`) or when the player cannot pay what it charges (`CostMismatch`);
/// otherwise the cost is paid and the action's points go to the inn record (capped at the
/// table's maximum) or, for an owned hero, to its closeness (capped at 1000).
pub fn do_hero_friendly(action: FriendlyActionType, table: &FriendlyTable, st: &FriendlyState)
    -> (r: Result<FriendlyPlan, DoHeroFriendlyResult>)
    requires
        valid_table(*table),
    ensures
        friendly_outcome(action, *table, *st, r),

{
    let current: i32 = match st.friendly_point {
        Some(v) => v,
        None => { return Err(DoHeroFriendlyResult::HeroNotExistInFriendlyTable); },
    };
    let gained: i32 = match action {
        FriendlyActionType::Greeting => table.greeting,
        FriendlyActionType::Conversation => table.conversation,
        FriendlyActionType::Gift => table.gift,
        FriendlyActionType::ClosenessGreeting => 25,
        FriendlyActionType::ClosenessConversation => 50,
        FriendlyActionType::ClosenessGift => 100,
        _ => 0,
    };
    let fp_cost: i64 = match action {
        FriendlyActionType::Conversation => 160,
        FriendlyActionType::ClosenessConversation => 50,
        _ => 0,
    };
    let gold_price: i64 = match action {
        FriendlyActionType::Gift => 40000,
        FriendlyActionType::ClosenessGift => 25000,
        _ => 0,
    };
    if (fp_cost > 0 && st.friendship_point < fp_cost) || (gold_price > 0 && st.gold < gold_price) {
        return Err(DoHeroFriendlyResult::CostMismatch);
    }
    let friendship_after: Option<i64> = if fp_cost > 0 { Some(st.friendship_point - fp_cost) } else { None };
    let gold_after: Option<i64> = if gold_price > 0 { Some(st.gold - gold_price) } else { None };
    let (friendly_point, closeness) = match st.owned_closeness {
        Some(c) => {
            let sum = c as i64 + gained as i64;
            let capped: i64 = if sum < 1000 { sum } else { 1000 };
            (current, Some(capped as i32))
        },
        None => {
            let sum = current as i64 + gained as i64;
            let capped: i64 = if sum < table.max_friendly_point as i64 { sum } else { table.max_friendly_point as i64 };
            (capped as i32, None)
        },
    };
    let time_column = match action {
        FriendlyActionType::Conversation => FriendlyTimeColumn::Conversation,
        FriendlyActionType::ClosenessConversation => FriendlyTimeColumn::Conversation,
        FriendlyActionType::Gift => FriendlyTimeColumn::Gift,
        FriendlyActionType::ClosenessGift => FriendlyTimeColumn::Gift,
        _ => FriendlyTimeColumn::Greeting,
    };
    Ok(FriendlyPlan { friendly_point, time_column, friendship_after, gold_after, closeness })
}

} // verus!

verus! {

/// The counts of one day's roulette.
pub struct RouletteInfo {
    pub roulette_info_index: i32,
    pub remain_count: i32,
    pub max_count: i32,
}

/// One section of the roulette wheel and what it pays.
pub struct RouletteRewardInfo {
    pub section: i32,
    pub type1: String,
    pub value1: i64,
}

/// The heroes listed in an inn record's hero list: the pieces between commas that read as
/// `i32`, in order; the others are skipped.
pub open spec fn listed_heroes(pieces: Seq<Seq<char>>) -> Seq<i32>
    decreases pieces.len(),
{
    if pieces.len() == 0 {
        Seq::empty()
    } else {
        let prev = listed_heroes(pieces.drop_last());
        match bounded_decimal(pieces.last(), i32::MIN as int, i32::MAX as int) {
            Some(v) => prev.push(v as i32),
            None => prev,
        }
    }
}

/// How many entries of `s` (counted with repetition) occur in `owned`.
pub open spec fn owned_count(s: Seq<i32>, owned: Seq<i32>) -> int
    decreases s.len(),
{
    if s.len() == 0 {
        0
    } else {
        owned_count(s.drop_last(), owned) + if owned.contains(s.last()) { 1int } else { 0int }
    }
}

/// Spins allowed per day: one, plus one for each listed inn hero the player owns.
pub open spec fn max_spins(selected: Seq<i32>, owned: Seq<i32>) -> int {
    1 + owned_count(selected, owned)
}

/// Counts the entries of `s` that occur in `owned`.
pub fn owned_heroes_in_inn(s: &Vec<i32>, owned: &Vec<i32>) -> (r: usize)
    ensures
        r == owned_count(s@, owned@),
        0 <= r <= s@.len(),
{
    let mut count: usize = 0;
    let mut i: usize = 0;
    while i < s.len()
        invariant
            i <= s@.len(),
            count == owned_count(s@.take(i as int), owned@),
            0 <= count <= i,
        decreases s@.len() - i,
    {
        proof {
            assert(s@.take(i + 1).drop_last() =~= s@.take(i as int));
        }
        let mut found = false;
        let mut j: usize = 0;
        while j < owned.len()
            invariant
                i < s@.len(),
                j <= owned@.len(),
                found == exists|k: int| 0 <= k < j && owned@[k] == s@[i as int],
            decreases owned@.len() - j,
        {
            if owned[j] == s[i] {
                found = true;
            }
            j = j + 1;
        }
        proof {
            if found {
                let k = choose|k: int| 0 <= k < j && owned@[k] == s@[i as int];
                assert(owned@.contains(s@[i as int]));
            } else {
                assert(!owned@.contains(s@[i as int]));
            }
        }
        if found {
            count = count + 1;
        }
        i = i + 1;
    }
    proof {
        assert(s@.take(s@.len() as int) =~= s@);
    }
    count
}

/// The roulette counts for a day on which `spins_today` spins were made.
pub open spec fn roulette_info_of(index: int, max: int, spins_today: int) -> RouletteInfo {
    RouletteInfo {
        roulette_info_index: index as i32,
        remain_count: (if max - spins_today > 0 { max - spins_today } else { 0 }) as i32,
        max_count: max as i32,
    }
}

/// The roulette counts shown when the inn's roulette is opened.
pub fn request_hero_inn_roulette(roulette_index: i32, selected: &Vec<i32>, owned: &Vec<i32>, spins_today: i32)
    -> (r: RouletteInfo)
    requires
        selected@.len() < i32::MAX,
    ensures
        r == roulette_info_of(roulette_index as int, max_spins(selected@, owned@), spins_today as int),
{
    let max = 1 + owned_heroes_in_inn(selected, owned) as i64;
    let left = max - spins_today as i64;
    RouletteInfo {
        roulette_info_index: roulette_index,
        remain_count: if left > 0 { left as i32 } else { 0 },
        max_count: max as i32,
    }
}

/// What a spin pays.
pub enum RouletteGain {
    Gold(i64),
    Gem(i64),
    FriendshipPoint(i64),
    /// The winning section pays nothing the inn knows how to give.
    Nothing,
}

/// The answer to a spin.
pub struct RouletteSpin {
    /// `true` for `Success`; `false` for `NoRemainCount`.
    pub spun: bool,
    pub info: RouletteInfo,
    /// The winning section, 1 to 8, or -1 when nothing was spun.
    pub section: i32,
    pub gain: RouletteGain,
}

/// The first reward listed for `section`, if any.
pub open spec fn reward_at(rewards: Seq<RouletteRewardInfo>, section: int) -> Option<RouletteRewardInfo>
    decreases rewards.len(),
{
    if rewards.len() == 0 {
        None
    } else {
        match reward_at(rewards.drop_last(), section) {
            Some(r) => Some(r),
            None => if rewards.last().section == section { Some(rewards.last()) } else { None },
        }
    }
}

/// What a reward pays, by its first type name.
pub open spec fn gain_of(r: Option<RouletteRewardInfo>) -> RouletteGain {
    match r {
        Some(w) => if w.type1@ == "Gold"@ {
            RouletteGain::Gold(w.value1)
        } else if w.type1@ == "Gem"@ {
            RouletteGain::Gem(w.value1)
        } else if w.type1@ == "FriendshipPoint"@ {
            RouletteGain::FriendshipPoint(w.value1)
        } else {
            RouletteGain::Nothing
        },
        None => RouletteGain::Nothing,
    }
}

/// Decides a spin that landed on `section`: refused (`NoRemainCount`, section -1, nothing
/// left) once the day's spins are used up; otherwise the spin is counted and the first
/// reward listed for the section is paid.
pub fn roulette_outcome(
    roulette_index: i32,
    max: i32,
    spins_today: i32,
    section: i32,
    rewards: &Vec<RouletteRewardInfo>,
) -> (r: RouletteSpin)
    ensures
        spins_today >= max ==> r.spun == false && r.section == -1 && r.gain == RouletteGain::Nothing
            && r.info == (RouletteInfo { roulette_info_index: roulette_index, remain_count: 0, max_count: max }),
        spins_today < max ==> r.spun == true && r.section == section
            && r.info == roulette_info_of(roulette_index as int, max as int, spins_today + 1)
            && r.gain == gain_of(reward_at(rewards@, section as int)),
{
    if spins_today >= max {
        return RouletteSpin {
            spun: false,
            info: RouletteInfo { roulette_info_index: roulette_index, remain_count: 0, max_count: max },
            section: -1,
            gain: RouletteGain::Nothing,
        };
    }
    let left = max as i64 - (spins_today as i64 + 1);
    let info = RouletteInfo {
        roulette_info_index: roulette_index,
        remain_count: if left > 0 { left as i32 } else { 0 },
        max_count: max,
    };
    let mut found: Option<usize> = None;
    let mut i: usize = 0;
    while i < rewards.len()
        invariant
            i <= rewards@.len(),
            match reward_at(rewards@.take(i as int), section as int) {
                Some(w) => found is Some && found->0 < i && rewards@[found->0 as int] == w,
                None => found is None,
            },
        decreases rewards@.len() - i,
    {
        proof {
            assert(rewards@.take(i + 1).drop_last() =~= rewards@.take(i as int));
        }
        if found.is_none() && rewards[i].section == section {
            found = Some(i);
        }
        i = i + 1;
    }
    proof {
        assert(rewards@.take(rewards@.len() as int) =~= rewards@);
    }
    let gain = match found {
        None => RouletteGain::Nothing,
        Some(k) => {
            let w = &rewards[k];
            if str_eq(w.type1.as_str(), "Gold") {
                RouletteGain::Gold(w.value1)
            } else if str_eq(w.type1.as_str(), "Gem") {
                RouletteGain::Gem(w.value1)
            } else if str_eq(w.type1.as_str(), "FriendshipPoint") {
                RouletteGain::FriendshipPoint(w.value1)
            } else {
                RouletteGain::Nothing
            }
        },
    };
    RouletteSpin { spun: true, info, section, gain }
}

} // verus!

verus! {

/// The hero list stored in an inn record: the indices in decimal, separated by commas.
pub open spec fn joined(v: Seq<i32>) -> Seq<char>
    decreases v.len(),
{
    if v.len() == 0 {
        Seq::empty()
    } else if v.len() == 1 {
        int_text(v[0] as int)
    } else {
        joined(v.drop_last()) + seq![','] + int_text(v.last() as int)
    }
}

/// Writes a hero list as the inn record stores it.
pub fn join_heroes(v: &Vec<i32>) -> (r: String)
    ensures
        r@ == joined(v@),
{
    let mut out = String::new();
    let mut i: usize = 0;
    while i < v.len()
        invariant
            i <= v@.len(),
            out@ == joined(v@.take(i as int)),
        decreases v@.len() - i,
    {
        proof {
            assert(v@.take(i + 1).drop_last() =~= v@.take(i as int));
            assert(v@.take(i + 1).last() == v@[i as int]);
        }
        if i > 0 {
            proof {
                reveal_strlit(",");
            }
            out.append(",");
        }
        push_int(&mut out, v[i] as i64);
        proof {
            if i == 0 {
                assert(Seq::<char>::empty() + int_text(v@[0] as int) =~= joined(v@.take(1)));
            }
        }
        i = i + 1;
    }
    proof {
        assert(v@.take(v@.len() as int) =~= v@);
    }
    out
}

/// Reads the hero list of an inn record: every comma-separated piece that is an `i32`.
pub fn selected_heroes(text: &str) -> (r: Vec<i32>)
    ensures
        r@ == listed_heroes(split_on(text@, ',')),
{
    let cs = chars_of(text);
    let n = cs.len();
    let mut out: Vec<i32> = Vec::new();
    let mut start: usize = 0;
    let mut i: usize = 0;
    let ghost mut done: Seq<Seq<char>> = Seq::empty();
    proof {
        assert(cs@.take(0) =~= Seq::<char>::empty());
        assert(done.push(cs@.subrange(0, 0)) =~= seq![Seq::<char>::empty()]);
    }
    while i < n
        invariant
            cs@ == text@,
            n == cs@.len(),
            start <= i <= n,
            split_on(cs@.take(i as int), ',') == done.push(cs@.subrange(start as int, i as int)),
            out@ == listed_heroes(done),
        decreases n - i,
    {
        let ghost s1 = cs@.take(i + 1);
        proof {
            assert(s1.drop_last() =~= cs@.take(i as int));
            assert(s1.last() == cs@[i as int]);
        }
        if cs[i] == ',' {
            let piece = text.substring_char(start, i);
            let ghost gp = cs@.subrange(start as int, i as int);
            match parse_i32(piece) {
                Some(v) => { out.push(v); },
                None => {},
            }
            proof {
                assert(done.push(gp).drop_last() =~= done);
                done = done.push(gp);
                assert(cs@.subrange(i + 1, i + 1) =~= Seq::<char>::empty());
            }
            start = i + 1;
        } else {
            proof {
                let prev = done.push(cs@.subrange(start as int, i as int));
                assert(cs@.subrange(start as int, i as int).push(cs@[i as int])
                    =~= cs@.subrange(start as int, i + 1));
                assert(prev.update(prev.len() - 1, prev.last().push(cs@[i as int]))
                    =~= done.push(cs@.subrange(start as int, i + 1)));
            }
        }
        i = i + 1;
    }
    let piece = text.substring_char(start, n);
    let ghost gp = cs@.subrange(start as int, n as int);
    match parse_i32(piece) {
        Some(v) => { out.push(v); },
        None => {},
    }
    proof {
        assert(cs@.take(n as int) =~= text@);
        assert(done.push(gp).drop_last() =~= done);
    }
    out
}

proof fn lemma_int_text_plain(n: int)
    ensures
        !int_text(n).contains(','),
        bounded_decimal(int_text(n), i32::MIN as int, i32::MAX as int)
            == (if i32::MIN <= n <= i32::MAX { Some(n) } else { None::<int> }),
{
    lemma_int_text_reads_back(n);
    let s = int_text(n);
    if s.contains(',') {
        let k = choose|k: int| 0 <= k < s.len() && s[k] == ',';
        assert(s[k] == '-' || crate::text::is_digit(s[k]));
    }
}

/// The hero list an inn record stores reads back as the same list.
pub proof fn lemma_hero_list_round_trip(v: Seq<i32>)
    ensures
        listed_heroes(split_on(joined(v), ',')) == v,
    decreases v.len(),
{
    if v.len() == 0 {
        let ps = seq![Seq::<char>::empty()];
        assert(joined(v) == Seq::<char>::empty());
        assert(split_on(Seq::<char>::empty(), ',') == ps);
        assert(ps.drop_last() =~= Seq::<Seq<char>>::empty());
        assert(ps.last() == Seq::<char>::empty());
        assert(decimal_value(Seq::<char>::empty()) is None);
        assert(listed_heroes(Seq::<Seq<char>>::empty()) == Seq::<i32>::empty());
        assert(listed_heroes(ps) == Seq::<i32>::empty());
        assert(v =~= Seq::<i32>::empty());
    } else if v.len() == 1 {
        let t = int_text(v[0] as int);
        lemma_int_text_plain(v[0] as int);
        lemma_split_on_plain(t, ',');
        assert(joined(v) == t);
        let ps = seq![t];
        assert(ps.drop_last() =~= Seq::<Seq<char>>::empty());
        assert(ps.last() == t);
        assert(listed_heroes(Seq::<Seq<char>>::empty()) == Seq::<i32>::empty());
        assert(bounded_decimal(t, i32::MIN as int, i32::MAX as int) == Some(v[0] as int));
        assert(listed_heroes(ps) == Seq::<i32>::empty().push(v[0]));
        assert(Seq::<i32>::empty().push(v[0]) =~= v);
    } else {
        let w = v.drop_last();
        let t = int_text(v.last() as int);
        lemma_hero_list_round_trip(w);
        lemma_int_text_plain(v.last() as int);
        lemma_split_on_join(joined(w), t, ',');
        assert(joined(v) == joined(w) + seq![','] + t);
        let ps = split_on(joined(w), ',').push(t);
        assert(ps.drop_last() =~= split_on(joined(w), ','));
        assert(ps.last() == t);
        assert(listed_heroes(ps) == w.push(v.last()));
        assert(w.push(v.last()) =~= v);
    }
}

} // verus!

verus! {

/// The player's inn record.
pub struct PlayerHeroFriendlyInfo {
    pub hero_index: i32,
    pub selected_hero_index: i32,
    pub friendly_point: i32,
    pub last_greeting_time: Option<String>,
    pub last_conversation_time: Option<String>,
    pub last_gift_time: Option<String>,
    pub selected_time: Option<String>,
    pub selected_hero_indice: Option<String>,
    pub last_roulette_time: Option<String>,
}

/// A friendship-point balance change.
pub struct FriendshipPointResultInfo {
    pub add_value: i64,
    pub add_daily_acc_value: i64,
    pub new_value: i64,
    pub new_daily_acc_value: i64,
}

/// A currency balance change, by currency name.
pub struct CurrencyResultInfo3 {
    pub currency_type: String,
    pub add_value: i64,
    pub new_value: i64,
}

/// The entries of `all` that are not in `owned`, in order.
pub open spec fn not_owned(all: Seq<i32>, owned: Seq<i32>) -> Seq<i32>
    decreases all.len(),
{
    if all.len() == 0 {
        Seq::empty()
    } else {
        let prev = not_owned(all.drop_last(), owned);
        if owned.contains(all.last()) { prev } else { prev.push(all.last()) }
    }
}

/// The inn heroes a player can still meet: those not owned.
pub fn available_heroes(all: &Vec<i32>, owned: &Vec<i32>) -> (r: Vec<i32>)
    ensures
        r@ == not_owned(all@, owned@),
{
    let mut out: Vec<i32> = Vec::new();
    let mut i: usize = 0;
    while i < all.len()
        invariant
            i <= all@.len(),
            out@ == not_owned(all@.take(i as int), owned@),
        decreases all@.len() - i,
    {
        proof {
            assert(all@.take(i + 1).drop_last() =~= all@.take(i as int));
        }
        let mut found = false;
        let mut j: usize = 0;
        while j < owned.len()
            invariant
                i < all@.len(),
                j <= owned@.len(),
                found == exists|k: int| 0 <= k < j && owned@[k] == all@[i as int],
            decreases owned@.len() - j,
        {
            if owned[j] == all[i] {
                found = true;
            }
            j = j + 1;
        }
        proof {
            if found {
                let k = choose|k: int| 0 <= k < j && owned@[k] == all@[i as int];
                assert(owned@.contains(all@[i as int]));
            }
        }
        if !found {
            out.push(all[i]);
        }
        i = i + 1;
    }
    proof {
        assert(all@.take(all@.len() as int) =~= all@);
    }
    out
}

/// Picks `count` heroes (all of them when fewer are available) at random, each from a
/// different place of the list.
pub fn select_random_heroes(available: &Vec<i32>, count: usize) -> (r: Vec<i32>)
    ensures
        r@.len() == (if count < available@.len() { count as int } else { available@.len() as int }),
        r@.to_multiset().subset_of(available@.to_multiset()),
{
    choose_multiple(available, count)
}

/// A fresh inn record showing `selected`: the first of them is the hero met, no friendly
/// point yet, and the list stored as text.
pub open spec fn fresh_info_of(selected: Seq<i32>, now: Seq<char>, r: PlayerHeroFriendlyInfo) -> bool {
    let first: i32 = if selected.len() > 0 { selected[0] } else { 0 };
    &&& r.hero_index == first
    &&& r.selected_hero_index == first
    &&& r.friendly_point == 0
    &&& r.last_greeting_time is None
    &&& r.last_conversation_time is None
    &&& r.last_gift_time is None
    &&& r.selected_time is Some && r.selected_time->0@ == now
    &&& r.selected_hero_indice is Some && r.selected_hero_indice->0@ == joined(selected)
    &&& r.last_roulette_time is None
}

/// Builds a fresh inn record showing `selected`.
pub fn fresh_friendly_info(selected: &Vec<i32>, now: &str) -> (r: PlayerHeroFriendlyInfo)
    ensures
        fresh_info_of(selected@, now@, r),
{
    let first: i32 = if selected.len() > 0 { selected[0] } else { 0 };
    PlayerHeroFriendlyInfo {
        hero_index: first,
        selected_hero_index: first,
        friendly_point: 0,
        last_greeting_time: None,
        last_conversation_time: None,
        last_gift_time: None,
        selected_time: Some(String::from_str(now)),
        selected_hero_indice: Some(join_heroes(selected)),
        last_roulette_time: None,
    }
}

/// The answer to opening the inn.
pub struct RequestNewFriendlyHeroResponse {
    pub base_result: String,
    pub result: String,
    pub friendly_info: Option<PlayerHeroFriendlyInfo>,
    pub max_closeness_hero_indice: Option<Vec<i32>>,
}

/// Opens the inn: the stored record when there is one, else a fresh record showing six
/// heroes drawn from those available; the heroes at full closeness are listed when there
/// are any.
pub fn request_new_friendly_hero(
    existing: Option<PlayerHeroFriendlyInfo>,
    available: &Vec<i32>,
    now: &str,
    max_closeness_heroes: Vec<i32>,
) -> (r: RequestNewFriendlyHeroResponse)
    ensures
        r.base_result@ == "Success"@,
        r.result@ == "Success"@,
        r.friendly_info is Some,
        existing is Some ==> r.friendly_info == existing,
        existing is None ==> exists|sel: Seq<i32>|
            #![trigger fresh_info_of(sel, now@, r.friendly_info->0)]
            sel.len() == (if 6 < available@.len() { 6 } else { available@.len() as int })
            && sel.to_multiset().subset_of(available@.to_multiset())
            && fresh_info_of(sel, now@, r.friendly_info->0),
        r.max_closeness_hero_indice == (if max_closeness_heroes@.len() == 0 {
            None::<Vec<i32>>
        } else {
            Some(max_closeness_heroes)
        }),
{
    let ghost mut shown: Seq<i32> = Seq::empty();
    let info = match existing {
        Some(e) => e,
        None => {
            let sel = select_random_heroes(available, 6);
            proof {
                shown = sel@;
            }
            fresh_friendly_info(&sel, now)
        },
    };
    let ghost picked = shown.len() == (if 6 < available@.len() { 6 } else { available@.len() as int })
        && shown.to_multiset().subset_of(available@.to_multiset())
        && fresh_info_of(shown, now@, info);
    assert(existing is None ==> picked);
    let listed = if max_closeness_heroes.len() == 0 { None } else { Some(max_closeness_heroes) };
    let ok = RequestNewFriendlyHeroResult::Success;
    let resp = RequestNewFriendlyHeroResponse {
        base_result: String::from_str(ok.as_str()),
        result: String::from_str(ok.as_str()),
        friendly_info: Some(info),
        max_closeness_hero_indice: listed,
    };
    proof {
        if existing is None {
            assert(resp.friendly_info->0 == info);
            assert(fresh_info_of(shown, now@, resp.friendly_info->0));
        }
    }
    resp
}

} // verus!

verus! {

/// The answer to changing the hero to recruit.
pub struct ChangeRecruitHeroResponse {
    pub base_result: String,
    pub result: String,
    pub friendly_info: Option<PlayerHeroFriendlyInfo>,
}

/// Changes the hero to recruit. Index 0 (or none) starts over with six heroes drawn from
/// those available; an owned hero is refused with `AlreadyHave`; any other hero becomes the
/// one met, with no friendly point and the stored hero list kept.
pub fn change_recruit_hero(
    hero_index: Option<i32>,
    owned: bool,
    available: &Vec<i32>,
    stored_list: Option<String>,
    now: &str,
) -> (r: ChangeRecruitHeroResponse)
    ensures
        r.base_result@ == "Success"@,
        ({
            let h = match hero_index { Some(v) => v, None => 0 };
            if h == 0 {
                &&& r.result@ == "Success"@
                &&& r.friendly_info is Some
                &&& exists|sel: Seq<i32>|
                    #![trigger fresh_info_of(sel, now@, r.friendly_info->0)]
                    sel.len() == (if 6 < available@.len() { 6 } else { available@.len() as int })
                    && sel.to_multiset().subset_of(available@.to_multiset())
                    && fresh_info_of(sel, now@, r.friendly_info->0)
            } else if owned {
                r.result@ == "AlreadyHave"@ && r.friendly_info is None
            } else {
                &&& r.result@ == "Success"@
                &&& r.friendly_info is Some
                &&& ({
                    let f = r.friendly_info->0;
                    &&& f.hero_index == h
                    &&& f.selected_hero_index == h
                    &&& f.friendly_point == 0
                    &&& f.last_greeting_time is None
                    &&& f.last_conversation_time is None
                    &&& f.last_gift_time is None
                    &&& f.selected_time is Some && f.selected_time->0@ == now@
                    &&& f.selected_hero_indice == stored_list
                    &&& f.last_roulette_time is None
                })
            }
        }),
{
    let h = match hero_index { Some(v) => v, None => 0 };
    let ok = ChangeRecruitHeroResult::Success;
    if h == 0 {
        let sel = select_random_heroes(available, 6);
        let info = fresh_friendly_info(&sel, now);
        let resp = ChangeRecruitHeroResponse {
            base_result: String::from_str(ok.as_str()),
            result: String::from_str(ok.as_str()),
            friendly_info: Some(info),
        };
        proof {
            assert(fresh_info_of(sel@, now@, resp.friendly_info->0));
        }
        return resp;
    }
    if owned {
        return ChangeRecruitHeroResponse {
            base_result: String::from_str(ok.as_str()),
            result: String::from_str(ChangeRecruitHeroResult::AlreadyHave.as_str()),
            friendly_info: None,
        };
    }
    ChangeRecruitHeroResponse {
        base_result: String::from_str(ok.as_str()),
        result: String::from_str(ok.as_str()),
        friendly_info: Some(PlayerHeroFriendlyInfo {
            hero_index: h,
            selected_hero_index: h,
            friendly_point: 0,
            last_greeting_time: None,
            last_conversation_time: None,
            last_gift_time: None,
            selected_time: Some(String::from_str(now)),
            selected_hero_indice: stored_list,
            last_roulette_time: None,
        }),
    }
}

/// The roulette index a client sent as text: its `i32` value, or 1.
pub fn roulette_index(t: &Option<String>) -> (r: i32)
    ensures
        r == index_text_value(match t { Some(s) => Some(s@), None => None }, 1),
{
    index_text(t, 1)
}

/// Spins the inn's roulette for a player whose inn record lists `stored_list`, who owns
/// `owned` and has spun `spins_today` times today. The day allows one spin plus one per
/// listed hero the player owns; the wheel stops on a section from 1 to 8 at random.
pub fn give_reward_hero_inn_roulette(
    roulette_index_text: &Option<String>,
    stored_list: &Option<String>,
    owned: &Vec<i32>,
    spins_today: i32,
    rewards: &Vec<RouletteRewardInfo>,
) -> (r: RouletteSpin)
    ensures
        ({
            let index = index_text_value(
                match roulette_index_text { Some(s) => Some(s@), None => None }, 1);
            let listed = match stored_list {
                Some(s) => listed_heroes(split_on(s@, ',')),
                None => Seq::<i32>::empty(),
            };
            let max = max_spins(listed, owned@);
            &&& max <= i32::MAX ==> {
                &&& spins_today >= max ==> !r.spun && r.section == -1
                    && r.gain == RouletteGain::Nothing
                    && r.info == (RouletteInfo {
                        roulette_info_index: index as i32,
                        remain_count: 0,
                        max_count: max as i32,
                    })
                &&& spins_today < max ==> r.spun && 1 <= r.section <= 8
                    && r.info == roulette_info_of(index, max, spins_today + 1)
                    && r.gain == gain_of(reward_at(rewards@, r.section as int))
            }
        }),
{
    let index = roulette_index(roulette_index_text);
    let listed: Vec<i32> = match stored_list {
        Some(s) => selected_heroes(s.as_str()),
        None => Vec::new(),
    };
    proof {
        if stored_list is None {
            assert(listed@ =~= Seq::<i32>::empty());
        }
    }
    let count = owned_heroes_in_inn(&listed, owned);
    let max: i32 = if count < i32::MAX as usize { (1 + count) as i32 } else { i32::MAX };
    let section = (random_below(8) + 1) as i32;
    roulette_outcome(index, max, spins_today, section, rewards)
}

/// The answer to a roulette spin.
pub struct GiveRewardHeroInnRouletteResponse {
    pub base_result: String,
    pub result: String,
    pub roulette_info: Option<RouletteInfo>,
    pub section: i32,
    pub currency_results: Option<Vec<CurrencyResultInfo3>>,
    pub stamina_result: Option<crate::potion::StaminaResultInfo>,
    pub friendship_point_result: Option<FriendshipPointResultInfo>,
}

/// Pays a spin's gain into a balance: the balance after adding the amount, when it fits.
pub fn credit(balance: i64, amount: i64) -> (r: Option<i64>)
    ensures
        i64::MIN <= balance + amount <= i64::MAX ==> r == Some((balance + amount) as i64),
        !(i64::MIN <= balance + amount <= i64::MAX) ==> r is None,
{
    balance.checked_add(amount)
}

/// Builds the answer to a spin once its gain is paid; `new_balance` is the balance the
/// gain went to, after it.
pub fn roulette_response(spin: RouletteSpin, new_balance: i64) -> (r: GiveRewardHeroInnRouletteResponse)
    ensures
        r.base_result@ == "Success"@,
        r.result@ == (if spin.spun { "Success"@ } else { "NoRemainCount"@ }),
        r.roulette_info == Some(spin.info),
        r.section == spin.section,
        r.stamina_result is None,
        match spin.gain {
            RouletteGain::Gold(v) => r.currency_results is Some && r.currency_results->0@.len() == 1
                && r.currency_results->0@[0].currency_type@ == "Gold"@
                && r.currency_results->0@[0].add_value == v
                && r.currency_results->0@[0].new_value == new_balance
                && r.friendship_point_result is None,
            RouletteGain::Gem(v) => r.currency_results is Some && r.currency_results->0@.len() == 1
                && r.currency_results->0@[0].currency_type@ == "Gem"@
                && r.currency_results->0@[0].add_value == v
                && r.currency_results->0@[0].new_value == new_balance
                && r.friendship_point_result is None,
            RouletteGain::FriendshipPoint(v) => r.currency_results is None
                && r.friendship_point_result == Some(FriendshipPointResultInfo {
                    add_value: v, add_daily_acc_value: 0, new_value: new_balance, new_daily_acc_value: 0,
                }),
            RouletteGain::Nothing => r.currency_results is None && r.friendship_point_result is None,
        },
{
    let result = if spin.spun { "Success" } else { "NoRemainCount" };
    let mut currency_results: Option<Vec<CurrencyResultInfo3>> = None;
    let mut friendship_point_result: Option<FriendshipPointResultInfo> = None;
    match spin.gain {
        RouletteGain::Gold(v) => {
            currency_results = Some(vec![CurrencyResultInfo3 {
                currency_type: String::from_str("Gold"), add_value: v, new_value: new_balance,
            }]);
        },
        RouletteGain::Gem(v) => {
            currency_results = Some(vec![CurrencyResultInfo3 {
                currency_type: String::from_str("Gem"), add_value: v, new_value: new_balance,
            }]);
        },
        RouletteGain::FriendshipPoint(v) => {
            friendship_point_result = Some(FriendshipPointResultInfo {
                add_value: v, add_daily_acc_value: 0, new_value: new_balance, new_daily_acc_value: 0,
            });
        },
        RouletteGain::Nothing => {},
    }
    GiveRewardHeroInnRouletteResponse {
        base_result: String::from_str("Success"),
        result: String::from_str(result),
        roulette_info: Some(spin.info),
        section: spin.section,
        currency_results,
        stamina_result: None,
        friendship_point_result,
    }
}

} // verus!

verus! {

/// A request to open the inn.
pub struct RequestNewFriendlyHeroRequest {
    pub session_id: Option<String>,
    pub session_key: Option<String>,
}

/// A request for an action with a visiting hero; the hero and the action arrive as text.
pub struct DoHeroFriendlyRequest {
    pub session_id: Option<String>,
    pub session_key: Option<String>,
    pub hero_index: Option<String>,
    pub action: Option<String>,
}

/// The answer to an action with a visiting hero.
pub struct DoHeroFriendlyResponse {
    pub base_result: String,
    pub result: String,
    pub friendly_info: Option<PlayerHeroFriendlyInfo>,
    pub hero_info: Option<HeroInfo>,
    pub currency_result: Option<CurrencyResultInfo3>,
    pub friendship_point_result: Option<FriendshipPointResultInfo>,
}

/// A request to change the hero to recruit.
pub struct ChangeRecruitHeroRequest {
    pub session_id: Option<String>,
    pub session_key: Option<String>,
    pub hero_index: Option<i32>,
}

/// A request to recruit the hero met in the inn.
pub struct RecruitHeroRequest {
    pub session_id: Option<String>,
    pub session_key: Option<String>,
    pub hero_index: Option<i32>,
}

/// A request for the inn's daily reset times.
pub struct HeroInnResetTimeRequest {
    pub session_id: Option<String>,
    pub session_key: Option<String>,
}

/// The inn's last and next daily reset, as `YYYY-MM-DD HH:MM:SS` in UTC.
pub struct HeroInnResetTimeResponse {
    pub base_result: String,
    pub result: String,
    pub last_reset_time: String,
    pub next_reset_time: String,
}

/// A request to claim the rewards of heroes at full closeness.
pub struct GiveRewardMaxClosenessHeroRequest {
    pub session_id: Option<String>,
    pub session_key: Option<String>,
    pub hero_indices: Option<Vec<i32>>,
}

/// The answer to a full-closeness claim.
pub struct GiveRewardMaxClosenessHeroResponse {
    pub base_result: String,
    pub result: String,
    pub currency_results: Option<Vec<CurrencyResultInfo3>>,
}

/// A request for the roulette's counts; the index arrives as text.
pub struct RequestHeroInnRouletteRequest {
    pub session_id: Option<String>,
    pub session_key: Option<String>,
    pub roulette_index: Option<String>,
}

/// The roulette's counts and sections.
pub struct RequestHeroInnRouletteResponse {
    pub base_result: String,
    pub result: String,
    pub roulette_info: Option<RouletteInfo>,
    pub roulette_reward_info: Option<Vec<RouletteRewardInfo>>,
}

/// A request to spin the roulette; the index arrives as text.
pub struct GiveRewardHeroInnRouletteRequest {
    pub session_id: Option<String>,
    pub session_key: Option<String>,
    pub roulette_index: Option<String>,
}

/// A refused friendly action: only the result name is sent.
pub fn friendly_refusal(result: DoHeroFriendlyResult) -> (r: DoHeroFriendlyResponse)
    ensures
        r.base_result@ == "Success"@,
        r.result@ == result.name(),
        r.friendly_info is None && r.hero_info is None,
        r.currency_result is None && r.friendship_point_result is None,
{
    DoHeroFriendlyResponse {
        base_result: String::from_str("Success"),
        result: String::from_str(result.as_str()),
        friendly_info: None,
        hero_info: None,
        currency_result: None,
        friendship_point_result: None,
    }
}

/// The answer to an accepted friendly action: the gold paid is reported as a currency
/// change and the friendship points paid as a friendship change.
pub fn friendly_success(plan: &FriendlyPlan, action: FriendlyActionType, info: PlayerHeroFriendlyInfo, hero: Option<HeroInfo>)
    -> (r: DoHeroFriendlyResponse)
    requires
        plan.gold_after is Some ==> gold_cost(action) > 0,
        plan.friendship_after is Some ==> friendship_cost(action) > 0,
    ensures
        r.base_result@ == "Success"@,
        r.result@ == "Success"@,
        r.friendly_info == Some(info),
        r.hero_info == hero,
        match plan.gold_after {
            Some(g) => r.currency_result is Some && r.currency_result->0.currency_type@ == "Gold"@
                && r.currency_result->0.add_value == -gold_cost(action)
                && r.currency_result->0.new_value == g,
            None => r.currency_result is None,
        },
        match plan.friendship_after {
            Some(f) => r.friendship_point_result == Some(FriendshipPointResultInfo {
                add_value: (-friendship_cost(action)) as i64, add_daily_acc_value: 0,
                new_value: f, new_daily_acc_value: 0,
            }),
            None => r.friendship_point_result is None,
        },
{
    let gold_paid: i64 = match action {
        FriendlyActionType::Gift => 40000,
        FriendlyActionType::ClosenessGift => 25000,
        _ => 0,
    };
    let points_paid: i64 = match action {
        FriendlyActionType::Conversation => 160,
        FriendlyActionType::ClosenessConversation => 50,
        _ => 0,
    };
    let currency_result = match plan.gold_after {
        Some(g) => Some(CurrencyResultInfo3 {
            currency_type: String::from_str("Gold"), add_value: -gold_paid, new_value: g,
        }),
        None => None,
    };
    let friendship_point_result = match plan.friendship_after {
        Some(f) => Some(FriendshipPointResultInfo {
            add_value: -points_paid, add_daily_acc_value: 0, new_value: f, new_daily_acc_value: 0,
        }),
        None => None,
    };
    DoHeroFriendlyResponse {
        base_result: String::from_str("Success"),
        result: String::from_str("Success"),
        friendly_info: Some(info),
        hero_info: hero,
        currency_result,
        friendship_point_result,
    }
}

/// Decides a recruitment: the hero must be in the hero table (`HeroIndexMismatch`), not
/// owned (`AlreadyRecruited`), be the inn record's hero (`HeroNotExist` without a record,
/// `HeroIndexMismatch` for another hero) and have reached the friendly maximum
/// (`FriendlyPointMismatch`).
pub fn recruit_check(
    hero_index: i32,
    in_table: bool,
    owned: bool,
    record: Option<(i32, i32)>,
    max_friendly_point: i32,
) -> (r: Result<(), &'static str>)
    ensures
        !in_table ==> r is Err && r->Err_0@ == "HeroIndexMismatch"@,
        in_table && owned ==> r is Err && r->Err_0@ == "AlreadyRecruited"@,
        in_table && !owned && record is None ==> r is Err && r->Err_0@ == "HeroNotExist"@,
        in_table && !owned && record is Some && (record->0).0 != hero_index
            ==> r is Err && r->Err_0@ == "HeroIndexMismatch"@,
        in_table && !owned && record is Some && (record->0).0 == hero_index
            && (record->0).1 < max_friendly_point ==> r is Err && r->Err_0@ == "FriendlyPointMismatch"@,
        in_table && !owned && record is Some && (record->0).0 == hero_index
            && (record->0).1 >= max_friendly_point ==> r is Ok,
{
    if !in_table {
        return Err("HeroIndexMismatch");
    }
    if owned {
        return Err("AlreadyRecruited");
    }
    match record {
        None => Err("HeroNotExist"),
        Some((h, points)) => {
            if h != hero_index {
                Err("HeroIndexMismatch")
            } else if points < max_friendly_point {
                Err("FriendlyPointMismatch")
            } else {
                Ok(())
            }
        },
    }
}

} // verus!

verus! {

/// Friendly actions respect the caps: a visiting hero's friendly points never pass the
/// table's maximum and an owned hero's closeness never passes 1000, and neither goes down
/// while it starts within its cap.
pub proof fn lemma_friendly_caps(action: FriendlyActionType, table: FriendlyTable, current: int, closeness: int)
    requires
        valid_table(table),
    ensures
        min_int(current + points_for(action, table), table.max_friendly_point as int) <= table.max_friendly_point,
        current <= table.max_friendly_point
            ==> current <= min_int(current + points_for(action, table), table.max_friendly_point as int),
        min_int(closeness + points_for(action, table), max_closeness()) <= max_closeness(),
        closeness <= max_closeness() ==> closeness <= min_int(closeness + points_for(action, table), max_closeness()),
{
}

/// An accepted action with a visiting hero raises the inn record's friendly points by the
/// table's points for that action (greeting, conversation or gift), capped at the table's
/// maximum; with an owned hero the closeness actions raise its closeness by 25, 50 or 100,
/// capped at 1000. A conversation takes 160 friendship points, a gift 40000 gold, a
/// closeness conversation 50 friendship points and a closeness gift 25000 gold.
pub proof fn lemma_friendly_gains(action: FriendlyActionType, table: FriendlyTable, st: FriendlyState,
    r: Result<FriendlyPlan, DoHeroFriendlyResult>)
    requires
        friendly_outcome(action, table, st, r),
        st.friendly_point is Some,
        !short_of(action, st),
    ensures
        r is Ok,
        st.owned_closeness is None && action == FriendlyActionType::Greeting
            ==> r->Ok_0.friendly_point == min_int(st.friendly_point->0 + table.greeting, table.max_friendly_point as int),
        st.owned_closeness is None && action == FriendlyActionType::Conversation
            ==> r->Ok_0.friendly_point == min_int(st.friendly_point->0 + table.conversation, table.max_friendly_point as int),
        st.owned_closeness is None && action == FriendlyActionType::Gift
            ==> r->Ok_0.friendly_point == min_int(st.friendly_point->0 + table.gift, table.max_friendly_point as int),
        st.owned_closeness is Some && action == FriendlyActionType::ClosenessGreeting
            ==> r->Ok_0.closeness == Some(min_int(st.owned_closeness->0 + 25, 1000) as i32),
        st.owned_closeness is Some && action == FriendlyActionType::ClosenessConversation
            ==> r->Ok_0.closeness == Some(min_int(st.owned_closeness->0 + 50, 1000) as i32),
        st.owned_closeness is Some && action == FriendlyActionType::ClosenessGift
            ==> r->Ok_0.closeness == Some(min_int(st.owned_closeness->0 + 100, 1000) as i32),
        st.owned_closeness is Some ==> r->Ok_0.friendly_point == st.friendly_point->0,
        action == FriendlyActionType::Conversation ==> r->Ok_0.friendship_after == Some((st.friendship_point - 160) as i64)
            && r->Ok_0.gold_after is None,
        action == FriendlyActionType::Gift ==> r->Ok_0.gold_after == Some((st.gold - 40000) as i64)
            && r->Ok_0.friendship_after is None,
        action == FriendlyActionType::ClosenessConversation ==> r->Ok_0.friendship_after == Some((st.friendship_point - 50) as i64),
        action == FriendlyActionType::ClosenessGift ==> r->Ok_0.gold_after == Some((st.gold - 25000) as i64),
        action == FriendlyActionType::Greeting ==> r->Ok_0.friendship_after is None && r->Ok_0.gold_after is None,
{
}

/// The roulette never shows a negative number of spins left, nor more than the day
/// allows once a spin has been made.
pub proof fn lemma_roulette_counts(index: int, max: int, spins: int)
    requires
        i32::MIN <= index <= i32::MAX,
        1 <= max <= i32::MAX,
        spins >= 0,
    ensures
        roulette_info_of(index, max, spins).remain_count >= 0,
        roulette_info_of(index, max, spins).remain_count <= roulette_info_of(index, max, spins).max_count,
        roulette_info_of(index, max, spins + 1).remain_count < max
            || roulette_info_of(index, max, spins + 1).remain_count == 0,
{
}

} // verus!

verus! {

/// The start of the UTC day holding time `t` (midnight, in seconds since the epoch).
pub open spec fn day_start(t: int) -> int {
    (t / 86400) * 86400
}

/// The inn's daily reset times around time `now`: the last midnight (UTC) and the next.
pub fn reset_times(now: i64) -> (r: HeroInnResetTimeResponse)
    requires
        -0x10_0000_0000_0000 <= now <= 0x10_0000_0000_0000,
    ensures
        r.base_result@ == "Success"@,
        r.result@ == "Success"@,
        r.last_reset_time@ == crate::live::timestamp_text(day_start(now as int)),
        r.next_reset_time@ == crate::live::timestamp_text(day_start(now as int) + 86400),
{
    let q = if now >= 0 { now / 86400 } else { -((-now + 86399) / 86400) };
    proof {
        if now < 0 {
            assert(-((-now + 86399) / 86400) == now / 86400) by (nonlinear_arith)
                requires now < 0;
        }
    }
    let last = q * 86400;
    let next = last + 86400;
    HeroInnResetTimeResponse {
        base_result: String::from_str("Success"),
        result: String::from_str("Success"),
        last_reset_time: crate::live::time(last),
        next_reset_time: crate::live::time(next),
    }
}

/// The inn's daily reset times now; see `reset_times`.
pub fn hero_inn_reset_time() -> (r: HeroInnResetTimeResponse)
    ensures
        r.base_result@ == "Success"@,
        r.result@ == "Success"@,
        exists|now: int| -0x10_0000_0000_0000 <= now <= 0x10_0000_0000_0000
            && r.last_reset_time@ == crate::live::timestamp_text(day_start(now))
            && r.next_reset_time@ == crate::live::timestamp_text(day_start(now) + 86400),
{
    let now = crate::live::now();
    reset_times(now)
}

} // verus!
