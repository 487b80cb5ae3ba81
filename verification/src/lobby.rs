//! The lobby: the player's state on entering the game, and campaign progress as the client
//! reads it.
use vstd::prelude::*;
use crate::hero::HeroInfo;
use crate::inn::PlayerHeroFriendlyInfo;

verus! {

/// A request to set the first nickname.
pub struct FirstLobbyRequest {
    pub session_id: Option<String>,
    pub session_key: Option<String>,
    pub nick: Option<String>,
}

/// The answer to setting the first nickname.
pub struct FirstLobbyResponse {
    pub base_result: String,
    pub result: String,
}

/// One dungeon's campaign progress as the client reads it.
pub struct ChapterDungeonInfo {
    pub chapter_index: i32,
    pub dungeon_index: i32,
    /// Difficulty times ten plus stars.
    pub max_star: i16,
    pub first_rewarded_diff: i16,
    pub scenario_complete: i16,
    pub visited_time: Option<String>,
    pub completed_time: Option<String>,
    pub daily_completed_count: i32,
    pub reset_count: i32,
}

/// A request to enter the lobby.
pub struct EnterLobbyRequest {
    pub session_id: Option<String>,
    pub session_key: Option<String>,
}

/// The player's balances and team as the lobby shows them.
pub struct UserInfo {
    pub session_key: String,
    pub account_id: i64,
    pub nick: String,
    pub gold: i64,
    pub gem: i64,
    pub pay_gem: i64,
    pub pvp_coin: i64,
    pub stamina: i32,
    pub stamina_recharge_time: Option<String>,
    pub team_level: i32,
    pub team_exp: i64,
    pub sword: i32,
    pub sword_recharge_time: Option<String>,
    pub sword2: i32,
    pub avatar_hero_index: i32,
    pub royal_point: i64,
    pub raid_point: i64,
    pub mileage: i64,
    pub friendship_point: i64,
    pub guild_raid_ticket: i32,
    pub world_boss_ticket: i32,
}

/// An item stack.
pub struct ItemInfo {
    pub item_index: i32,
    pub count: i32,
}

/// Everything the lobby shows on entry.
pub struct EnterLobbyResponse {
    pub base_result: String,
    pub result: String,
    pub user_info: Option<UserInfo>,
    pub heroes: Vec<HeroInfo>,
    pub items: Vec<ItemInfo>,
    pub dungeon_infos: Vec<ChapterDungeonInfo>,
    pub server_time: String,
    pub server_utc_time: String,
    pub server_local_time: String,
    pub server_utc_offset_hour: i32,
    pub new_mail_count: i32,
    pub friend_request_count: i32,
    pub friendly_info: Option<PlayerHeroFriendlyInfo>,
}

/// A stored campaign progress row.
pub struct CampaignRow {
    pub chapter_id: i32,
    pub dungeon_id: i32,
    pub clear_count: i32,
    pub best_star: i32,
    pub completed_time: Option<String>,
}

/// True when a dungeon counts as completed: cleared, starred or stamped complete.
pub open spec fn completed(row: CampaignRow) -> bool {
    row.clear_count > 0 || row.best_star > 0 || row.completed_time is Some
}

/// The best result the client reads: chapters 1 to 10 start at Normal difficulty, so a
/// completed dungeon there reads as Normal (ten) plus its stars.
pub open spec fn max_star_of(row: CampaignRow) -> i16 {
    if completed(row) && row.chapter_id <= 10 { (10 + row.best_star) as i16 } else { row.best_star as i16 }
}

/// True when the encoding of a row fits its arithmetic.
pub open spec fn row_fits(row: CampaignRow) -> bool {
    completed(row) && row.chapter_id <= 10 ==> row.best_star <= i32::MAX - 10
}

/// The client's view of one dungeon's progress, visited at `now`.
pub fn dungeon_info(row: &CampaignRow, now: &str) -> (r: ChapterDungeonInfo)
    requires
        row_fits(*row),
    ensures
        r.chapter_index == row.chapter_id,
        r.dungeon_index == row.dungeon_id,
        r.max_star == max_star_of(*row),
        r.first_rewarded_diff == (if completed(*row) { 2i16 } else { 0i16 }),
        r.scenario_complete == (if completed(*row) { 1i16 } else { 0i16 }),
        r.visited_time is Some && r.visited_time->0@ == now@,
        r.completed_time == row.completed_time,
        r.daily_completed_count == row.clear_count,
        r.reset_count == 0,
{
    let done = row.clear_count > 0 || row.best_star > 0 || row.completed_time.is_some();
    let max_star: i16 = if done && row.chapter_id <= 10 { (10 + row.best_star) as i16 } else { row.best_star as i16 };
    ChapterDungeonInfo {
        chapter_index: row.chapter_id,
        dungeon_index: row.dungeon_id,
        max_star,
        first_rewarded_diff: if done { 2 } else { 0 },
        scenario_complete: if done { 1 } else { 0 },
        visited_time: Some(String::from_str(now)),
        completed_time: match &row.completed_time {
            Some(t) => Some(t.clone()),
            None => None,
        },
        daily_completed_count: row.clear_count,
        reset_count: 0,
    }
}

/// True when the infos read the rows in order.
pub open spec fn infos_match(rows: Seq<CampaignRow>, infos: Seq<ChapterDungeonInfo>, now: Seq<char>) -> bool {
    &&& infos.len() == rows.len()
    &&& forall|i: int| 0 <= i < rows.len() ==> {
        let (row, info) = (#[trigger] rows[i], infos[i]);
        &&& info.chapter_index == row.chapter_id
        &&& info.dungeon_index == row.dungeon_id
        &&& info.max_star == max_star_of(row)
        &&& info.first_rewarded_diff == (if completed(row) { 2i16 } else { 0i16 })
        &&& info.scenario_complete == (if completed(row) { 1i16 } else { 0i16 })
        &&& info.visited_time is Some && info.visited_time->0@ == now
        &&& info.completed_time == row.completed_time
        &&& info.daily_completed_count == row.clear_count
        &&& info.reset_count == 0
    }
}

/// Builds the lobby's entry answer: the player's state, with each campaign row read as the
/// client expects, all stamped with the server time.
pub fn enter_lobby(
    user_info: Option<UserInfo>,
    heroes: Vec<HeroInfo>,
    items: Vec<ItemInfo>,
    rows: Vec<CampaignRow>,
    now: &str,
    utc_now: &str,
    new_mail_count: i32,
    friend_request_count: i32,
    friendly_info: Option<PlayerHeroFriendlyInfo>,
) -> (r: EnterLobbyResponse)
    requires
        forall|i: int| 0 <= i < rows@.len() ==> row_fits(#[trigger] rows@[i]),
    ensures
        r.base_result@ == "Success"@,
        r.result@ == "Success"@,
        r.user_info == user_info,
        r.heroes == heroes,
        r.items == items,
        infos_match(rows@, r.dungeon_infos@, now@),
        r.server_time@ == now@,
        r.server_utc_time@ == utc_now@,
        r.server_local_time@ == now@,
        r.server_utc_offset_hour == 0,
        r.new_mail_count == new_mail_count,
        r.friend_request_count == friend_request_count,
        r.friendly_info == friendly_info,
{
    let mut infos: Vec<ChapterDungeonInfo> = Vec::new();
    let mut i: usize = 0;
    while i < rows.len()
        invariant
            i <= rows@.len(),
            forall|k: int| 0 <= k < rows@.len() ==> row_fits(#[trigger] rows@[k]),
            infos_match(rows@.take(i as int), infos@, now@),
        decreases rows@.len() - i,
    {
        let info = dungeon_info(&rows[i], now);
        infos.push(info);
        proof {
            assert forall|k: int| 0 <= k < i + 1 implies #[trigger] rows@.take(i + 1)[k] == rows@[k] by {}
        }
        i = i + 1;
    }
    proof {
        assert(rows@.take(rows@.len() as int) =~= rows@);
    }
    EnterLobbyResponse {
        base_result: String::from_str("Success"),
        result: String::from_str("Success"),
        user_info,
        heroes,
        items,
        dungeon_infos: infos,
        server_time: String::from_str(now),
        server_utc_time: String::from_str(utc_now),
        server_local_time: String::from_str(now),
        server_utc_offset_hour: 0,
        new_mail_count,
        friend_request_count,
        friendly_info,
    }
}

} // verus!
