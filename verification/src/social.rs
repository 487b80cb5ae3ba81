//! Friends and guilds: who may befriend or join whom, and what each answer says.
use vstd::prelude::*;
use crate::error::ServerError;
use crate::mail::BASE_SUCCESS;

verus! {

/// A player as a friend list shows one.
pub struct FriendInfo {
    pub account_id: i64,
    pub nickname: String,
    pub level: i32,
    pub avatar_hero_id: i64,
    pub last_login: String,
    pub is_online: bool,
}

pub struct GetFriendListRequest {
    pub session_id: Option<String>,
}

/// The player's friends and the requests waiting for an answer.
pub struct GetFriendListResponse {
    pub base_result: i32,
    pub friends: Vec<FriendInfo>,
    pub pending_requests: Vec<FriendInfo>,
}

/// A friend request by account or by nickname.
pub struct AddFriendRequest {
    pub session_id: Option<String>,
    pub target_nickname: Option<String>,
    pub target_account_id: Option<i64>,
}

/// `result` 1: already friends or pending; 0: requested.
pub struct AddFriendResponse {
    pub base_result: i32,
    pub result: i32,
}

pub struct AcceptFriendRequest {
    pub session_id: Option<String>,
    pub friend_account_id: Option<i64>,
}

pub struct AcceptFriendResponse {
    pub base_result: i32,
    pub result: i32,
}

pub struct RemoveFriendRequest {
    pub session_id: Option<String>,
    pub friend_account_id: Option<i64>,
}

pub struct RemoveFriendResponse {
    pub base_result: i32,
    pub result: i32,
}

pub struct SearchFriendRequest {
    pub session_id: Option<String>,
    pub keyword: String,
}

pub struct SearchFriendResponse {
    pub base_result: i32,
    pub user_list: Vec<FriendInfo>,
}

pub struct RequestFriendRequest {
    pub session_id: Option<String>,
    pub friend_id: i64,
    pub invite_type: Option<i32>,
}

/// `result` -1: already friends or pending; 0: requested.
pub struct RequestFriendResponse {
    pub base_result: i32,
    pub result: i32,
}

pub struct RejectFriendRequest {
    pub session_id: Option<String>,
    pub friend_id: i64,
}

pub struct RejectFriendResponse {
    pub base_result: i32,
    pub result: i32,
}

pub struct FriendshipPointRequest {
    pub session_id: Option<String>,
    pub friend_ids: Vec<i64>,
}

pub struct FriendshipPointResponse {
    pub base_result: i32,
    pub result: i32,
}

/// The session a request names, refused with `SessionExpired` when it names none.
pub fn require_session(id: Option<String>) -> (r: Result<String, ServerError>)
    ensures
        match id {
            Some(s) => r == Ok::<String, ServerError>(s),
            None => r == Err::<String, ServerError>(ServerError::SessionExpired),
        },
{
    match id {
        Some(s) => Ok(s),
        None => Err(ServerError::SessionExpired),
    }
}

/// Whom a friend request is for.
pub enum FriendTarget {
    Account(i64),
    /// Looked up by nickname; an unknown one is answered "User not found".
    Nickname(String),
}

/// The target of a friend request: the account when given, else the nickname; a request
/// naming neither is refused as a bad request.
pub fn add_friend_target(account: Option<i64>, nickname: Option<String>) -> (r: Result<FriendTarget, ServerError>)
    ensures
        account is Some ==> r == Ok::<FriendTarget, ServerError>(FriendTarget::Account(account->0)),
        account is None && nickname is Some ==> r == Ok::<FriendTarget, ServerError>(FriendTarget::Nickname(nickname->0)),
        account is None && nickname is None ==> r is Err && r->Err_0 is InvalidRequest,
{
    match account {
        Some(id) => Ok(FriendTarget::Account(id)),
        None => match nickname {
            Some(n) => Ok(FriendTarget::Nickname(n)),
            None => Err(ServerError::InvalidRequest(String::from_str("Missing target"))),
        },
    }
}

/// Answers a friend request: 1 when the players are already friends or a request is
/// pending (nothing is stored), else 0.
pub fn add_friend_result(existing: bool) -> (r: AddFriendResponse)
    ensures
        r.base_result == BASE_SUCCESS,
        r.result == (if existing { 1i32 } else { 0i32 }),
{
    AddFriendResponse { base_result: BASE_SUCCESS, result: if existing { 1 } else { 0 } }
}

/// Answers a friend invitation: -1 when the players are already friends or a request is
/// pending (nothing is stored), else 0.
pub fn request_friend_result(existing: bool) -> (r: RequestFriendResponse)
    ensures
        r.base_result == BASE_SUCCESS,
        r.result == (if existing { -1i32 } else { 0i32 }),
{
    RequestFriendResponse { base_result: BASE_SUCCESS, result: if existing { -1 } else { 0 } }
}

/// The friend an accept or a removal names, refused as a bad request when missing.
pub fn friend_account(id: Option<i64>) -> (r: Result<i64, ServerError>)
    ensures
        id is Some ==> r == Ok::<i64, ServerError>(id->0),
        id is None ==> r is Err && r->Err_0 is InvalidRequest,
{
    match id {
        Some(v) => Ok(v),
        None => Err(ServerError::InvalidRequest(String::from_str("Missing friend_account_id"))),
    }
}

/// Answers an accept: refused as not found when no pending request was accepted.
pub fn accept_friend_result(accepted: u64) -> (r: Result<AcceptFriendResponse, ServerError>)
    ensures
        accepted == 0 ==> r is Err && r->Err_0 is NotFound,
        accepted > 0 ==> r is Ok && r->Ok_0.base_result == BASE_SUCCESS && r->Ok_0.result == 0,
{
    if accepted == 0 {
        return Err(ServerError::NotFound(String::from_str("Friend request not found")));
    }
    Ok(AcceptFriendResponse { base_result: BASE_SUCCESS, result: 0 })
}

/// The pattern a nickname search matches: the keyword anywhere.
pub fn like_pattern(keyword: &str) -> (r: String)
    ensures
        r@ == seq!['%'] + keyword@ + seq!['%'],
{
    proof {
        reveal_strlit("%");
    }
    let mut out = String::from_str("%");
    out.append(keyword);
    out.append("%");
    out
}

/// True when `account` has a live session.
pub fn is_online(account: i64, online: &Vec<i64>) -> (r: bool)
    ensures
        r == online@.contains(account),
{
    let mut i: usize = 0;
    while i < online.len()
        invariant
            i <= online@.len(),
            forall|k: int| 0 <= k < i ==> online@[k] != account,
        decreases online@.len() - i,
    {
        if online[i] == account {
            proof {
                assert(online@[i as int] == account);
            }
            return true;
        }
        i = i + 1;
    }
    false
}

/// A guild as lists show it.
pub struct GuildInfo {
    pub guild_id: i64,
    pub name: String,
    pub level: i32,
    pub exp: i64,
    pub notice: String,
    pub max_members: i32,
    pub member_count: i32,
    pub master_account_id: i64,
    pub master_nick: String,
}

/// A guild member; `role` 0 is a member, 1 an officer, 2 the master.
pub struct GuildMemberInfo {
    pub account_id: i64,
    pub nickname: String,
    pub level: i32,
    pub role: i32,
    pub contribution: i64,
    pub last_login: String,
    pub is_online: bool,
}

pub struct GetGuildInfoRequest {
    pub session_id: Option<String>,
}

pub struct GetGuildInfoResponse {
    pub base_result: i32,
    pub guild_info: Option<GuildInfo>,
    pub members: Vec<GuildMemberInfo>,
    pub is_in_guild: bool,
}

pub struct CreateGuildRequest {
    pub session_id: Option<String>,
    pub guild_name: Option<String>,
}

/// `result` 1: already in a guild; 2: name taken; 0: created as `guild_id`.
pub struct CreateGuildResponse {
    pub base_result: i32,
    pub result: i32,
    pub guild_id: i64,
}

pub struct JoinGuildRequest {
    pub session_id: Option<String>,
    pub guild_id: Option<i64>,
}

/// `result` 1: already in a guild; 2: guild full; 0: joined.
pub struct JoinGuildResponse {
    pub base_result: i32,
    pub result: i32,
}

pub struct LeaveGuildRequest {
    pub session_id: Option<String>,
}

/// `result` 1: the master must hand over first; 0: left.
pub struct LeaveGuildResponse {
    pub base_result: i32,
    pub result: i32,
}

pub struct SearchGuildsRequest {
    pub session_id: Option<String>,
    pub search_text: Option<String>,
}

pub struct SearchGuildsResponse {
    pub base_result: i32,
    pub guilds: Vec<GuildInfo>,
}

/// The name of a guild to found, refused as a bad request when missing.
pub fn guild_name(name: Option<String>) -> (r: Result<String, ServerError>)
    ensures
        name is Some ==> r == Ok::<String, ServerError>(name->0),
        name is None ==> r is Err && r->Err_0 is InvalidRequest,
{
    match name {
        Some(n) => Ok(n),
        None => Err(ServerError::InvalidRequest(String::from_str("Missing guild_name"))),
    }
}

/// Decides a guild founding: refused (1) for a member of a guild, (2) for a taken name;
/// otherwise 0, and the founding goes ahead (`None` until the new guild's id is known).
pub fn create_guild_check(in_guild: bool, name_taken: bool) -> (r: Option<CreateGuildResponse>)
    ensures
        in_guild ==> r == Some(CreateGuildResponse { base_result: BASE_SUCCESS, result: 1, guild_id: 0 }),
        !in_guild && name_taken ==> r == Some(CreateGuildResponse { base_result: BASE_SUCCESS, result: 2, guild_id: 0 }),
        !in_guild && !name_taken ==> r is None,
{
    if in_guild {
        return Some(CreateGuildResponse { base_result: BASE_SUCCESS, result: 1, guild_id: 0 });
    }
    if name_taken {
        return Some(CreateGuildResponse { base_result: BASE_SUCCESS, result: 2, guild_id: 0 });
    }
    None
}

/// The guild a join names, refused as a bad request when missing.
pub fn guild_id(id: Option<i64>) -> (r: Result<i64, ServerError>)
    ensures
        id is Some ==> r == Ok::<i64, ServerError>(id->0),
        id is None ==> r is Err && r->Err_0 is InvalidRequest,
{
    match id {
        Some(v) => Ok(v),
        None => Err(ServerError::InvalidRequest(String::from_str("Missing guild_id"))),
    }
}

/// Decides a join: 1 for a member of a guild; an unknown guild is refused as not found;
/// 2 for a full guild (`(members, max)`); otherwise 0, and the player joins.
pub fn join_guild_check(in_guild: bool, guild: Option<(i32, i32)>) -> (r: Result<JoinGuildResponse, ServerError>)
    ensures
        in_guild ==> r == Ok::<JoinGuildResponse, ServerError>(JoinGuildResponse { base_result: BASE_SUCCESS, result: 1 }),
        !in_guild && guild is None ==> r is Err && r->Err_0 is NotFound,
        !in_guild && guild is Some ==> r == Ok::<JoinGuildResponse, ServerError>(JoinGuildResponse {
            base_result: BASE_SUCCESS,
            result: if (guild->0).0 >= (guild->0).1 { 2 } else { 0 },
        }),
{
    if in_guild {
        return Ok(JoinGuildResponse { base_result: BASE_SUCCESS, result: 1 });
    }
    match guild {
        None => Err(ServerError::NotFound(String::from_str("Guild not found"))),
        Some((members, max)) => Ok(JoinGuildResponse { base_result: BASE_SUCCESS, result: if members >= max { 2 } else { 0 } }),
    }
}

/// What leaving a guild does.
pub enum LeavePlan {
    /// The master may not leave while others remain.
    MasterMustHandOver,
    /// The player leaves; `disband` when the leaving master was alone.
    Leave { disband: bool },
}

/// Decides a departure from a guild (`(role, members)` of the player's membership): a
/// player in no guild is refused as not found; the master leaves only when alone, which
/// disbands the guild.
pub fn leave_guild_check(membership: Option<(i32, i64)>) -> (r: Result<LeavePlan, ServerError>)
    ensures
        membership is None ==> r is Err && r->Err_0 is NotFound,
        membership is Some && (membership->0).0 == 2 && (membership->0).1 > 1 ==> r == Ok::<LeavePlan, ServerError>(LeavePlan::MasterMustHandOver),
        membership is Some && (membership->0).0 == 2 && (membership->0).1 <= 1 ==> r == Ok::<LeavePlan, ServerError>(LeavePlan::Leave { disband: true }),
        membership is Some && (membership->0).0 != 2 ==> r == Ok::<LeavePlan, ServerError>(LeavePlan::Leave { disband: false }),
{
    match membership {
        None => Err(ServerError::NotFound(String::from_str("Not in a guild"))),
        Some((role, members)) => {
            if role == 2 {
                if members > 1 {
                    Ok(LeavePlan::MasterMustHandOver)
                } else {
                    Ok(LeavePlan::Leave { disband: true })
                }
            } else {
                Ok(LeavePlan::Leave { disband: false })
            }
        },
    }
}

/// The answer to a departure.
pub fn leave_guild_result(plan: &LeavePlan) -> (r: LeaveGuildResponse)
    ensures
        r.base_result == BASE_SUCCESS,
        r.result == (if *plan is MasterMustHandOver { 1i32 } else { 0i32 }),
{
    match plan {
        LeavePlan::MasterMustHandOver => LeaveGuildResponse { base_result: BASE_SUCCESS, result: 1 },
        LeavePlan::Leave { .. } => LeaveGuildResponse { base_result: BASE_SUCCESS, result: 0 },
    }
}

/// The guild page of a player: in a guild, its info (when found) counts the listed
/// members; otherwise nothing.
pub fn get_guild_info(guild: Option<GuildInfo>, members: Vec<GuildMemberInfo>, in_guild: bool) -> (r: GetGuildInfoResponse)
    requires
        members@.len() <= i32::MAX,
    ensures
        r.base_result == BASE_SUCCESS,
        r.is_in_guild == in_guild,
        in_guild ==> r.members == members && (match guild {
            Some(g) => r.guild_info is Some && r.guild_info->0 == (GuildInfo { member_count: members@.len() as i32, ..g }),
            None => r.guild_info is None,
        }),
        !in_guild ==> r.guild_info is None && r.members@.len() == 0,
{
    if !in_guild {
        return GetGuildInfoResponse { base_result: BASE_SUCCESS, guild_info: None, members: Vec::new(), is_in_guild: false };
    }
    let count = members.len() as i32;
    let info = match guild {
        Some(g) => Some(GuildInfo { member_count: count, ..g }),
        None => None,
    };
    GetGuildInfoResponse { base_result: BASE_SUCCESS, guild_info: info, members, is_in_guild: true }
}

} // verus!
