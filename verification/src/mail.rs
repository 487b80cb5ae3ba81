//! The mailbox: new-mail checks, listing and collecting mail rewards.
use vstd::prelude::*;
use crate::error::ServerError;
use crate::forms::{field_value, Request};
use crate::text::{bounded_decimal, parse_i32, parse_i64};

verus! {

/// The numeric success code the typed handlers send as their base result.
pub const BASE_SUCCESS: i32 = 0;

/// An item attached to a mail.
pub struct MailItemInfo {
    pub item_index: i32,
    pub item_count: i32,
}

/// A currency attached to a mail.
pub struct MailCurrencyInfo {
    pub currency_type: i32,
    pub amount: i32,
}

/// A mail as the client shows it.
pub struct MailInfo {
    pub mail_index: i64,
    pub open_index: i32,
    pub sender_id: i64,
    pub sender_name: String,
    pub receiver_id: i64,
    pub title: String,
    pub content: String,
    pub send_gold: i32,
    pub send_gem: i32,
    pub pvp_coin: i32,
    pub mileage: i32,
    pub lua_point: i32,
    pub guild_point: i32,
    pub world_boss_point: i32,
    pub event_dungeon_point: i32,
    pub event_dungeon_point2: i32,
    pub glory_point: i32,
    pub event_gift_point: i32,
    pub send_chicken: i32,
    pub send_sword: i32,
    pub send_sword2: i32,
    pub send_underground_prison_key: i32,
    pub send_underground_labyrinth_key: i32,
    pub send_hideout_key: i32,
    pub send_challenge_tower_key: i32,
    pub send_maze_key: i32,
    pub read_time: String,
    pub expire_time: String,
    pub open_time: String,
    pub open_remain_time: i32,
    pub item_infos: Option<Vec<MailItemInfo>>,
    pub currency_infos: Option<Vec<MailCurrencyInfo>>,
}

/// A currency balance change: currency 1 is gold, 2 gems.
pub struct CurrencyResultInfo3 {
    pub currency_type: i32,
    pub add_value: i64,
    pub new_value: i64,
}

/// What collecting mail paid.
pub struct MailReceiveResult {
    pub currency_results: Option<Vec<CurrencyResultInfo3>>,
}

/// The answer to a new-mail check.
pub struct CheckNewMailResponse {
    pub base_result: i32,
    pub result: i32,
    pub new_mail_arrived: bool,
    pub total_mail_count: i32,
    pub last_checked_mail_index: i64,
}

/// The player's uncollected mail, newest first.
pub struct GetMailListResponse {
    pub base_result: i32,
    pub result: i32,
    pub mail_infos: Vec<MailInfo>,
    pub total_count: i32,
}

/// The server-wide announcements.
pub struct GetGlobalMailListResponse {
    pub base_result: i32,
    pub result: i32,
    pub mail_infos: Vec<MailInfo>,
}

/// The answer to collecting one mail.
pub struct ReceiveMailResponse {
    pub base_result: i32,
    pub result: i32,
    pub mail_receive_result: MailReceiveResult,
}

/// The answer to collecting every mail.
pub struct ReceiveAllMailResponse {
    pub base_result: i32,
    pub result: i32,
    pub mail_receive_results: Vec<MailReceiveResult>,
    pub received_mail_count: i32,
}

/// A number field read leniently: its value when it holds one, else `default`.
pub open spec fn lenient_number(params: Request, key: Seq<char>, lo: int, hi: int, default: int) -> int {
    match field_value(params.fields(), key) {
        Some(t) => match bounded_decimal(t, lo, hi) {
            Some(v) => v,
            None => default,
        },
        None => default,
    }
}

/// Answers a new-mail check: new mail arrived when the newest uncollected mail
/// (`max_index`, 0 with none) is past the newest the client has seen (`TopmostMailIndex`,
/// 0 when absent or unreadable). The count is sent as `i32`, wrapping as a cast does.
pub fn check_new_mail(params: &Request, total: i64, max_index: Option<i64>) -> (r: CheckNewMailResponse)
    ensures
        ({
            let top = lenient_number(*params, "TopmostMailIndex"@, i64::MIN as int, i64::MAX as int, 0);
            let newest: i64 = match max_index { Some(m) => m, None => 0 };
            &&& r.base_result == BASE_SUCCESS
            &&& r.result == 0
            &&& r.new_mail_arrived == (newest > top)
            &&& r.total_mail_count == total as i32
            &&& r.last_checked_mail_index == newest
        }),
{
    let top: i64 = match params.find("TopmostMailIndex") {
        Some(t) => match parse_i64(t) {
            Some(v) => v,
            None => 0,
        },
        None => 0,
    };
    let newest: i64 = match max_index { Some(m) => m, None => 0 };
    CheckNewMailResponse {
        base_result: BASE_SUCCESS,
        result: 0,
        new_mail_arrived: newest > top,
        total_mail_count: total as i32,
        last_checked_mail_index: newest,
    }
}

/// How many mails a list or a collection takes: `MaxCount` (50 when absent or unreadable),
/// at most 100.
pub fn mail_max_count(params: &Request) -> (r: i32)
    ensures
        ({
            let asked = lenient_number(*params, "MaxCount"@, i32::MIN as int, i32::MAX as int, 50);
            r == (if asked < 100 { asked } else { 100 })
        }),
{
    let asked: i32 = match params.find("MaxCount") {
        Some(t) => match parse_i32(t) {
            Some(v) => v,
            None => 50,
        },
        None => 50,
    };
    if asked < 100 { asked } else { 100 }
}

/// The mail a collection names (`MailIndex`), refused as a bad request when absent or
/// unreadable.
pub fn mail_index(params: &Request) -> (r: Result<i64, ServerError>)
    ensures
        match field_value(params.fields(), "MailIndex"@) {
            Some(t) => match bounded_decimal(t, i64::MIN as int, i64::MAX as int) {
                Some(v) => r == Ok::<i64, ServerError>(v as i64),
                None => r is Err && r->Err_0 is InvalidRequest,
            },
            None => r is Err && r->Err_0 is InvalidRequest,
        },
{
    match params.find("MailIndex") {
        Some(t) => match parse_i64(t) {
            Some(v) => Ok(v),
            None => Err(ServerError::InvalidRequest(String::from_str("Missing MailIndex"))),
        },
        None => Err(ServerError::InvalidRequest(String::from_str("Missing MailIndex"))),
    }
}

/// The currency changes of collecting `gold` and `gem` onto balances that become
/// `new_gold` and `new_gem`: one entry per positive amount, gold first.
pub open spec fn paid_changes(gold: int, gem: int, new_gold: int, new_gem: int) -> Seq<(int, int, int)> {
    let g = if gold > 0 { seq![(1int, gold, new_gold)] } else { Seq::empty() };
    if gem > 0 { g.push((2int, gem, new_gem)) } else { g }
}

/// The view of a list of currency changes.
pub open spec fn changes_of(v: Seq<CurrencyResultInfo3>) -> Seq<(int, int, int)> {
    v.map_values(|c: CurrencyResultInfo3| (c.currency_type as int, c.add_value as int, c.new_value as int))
}

/// What collecting mail changes.
pub struct MailCollection {
    pub result: MailReceiveResult,
    pub new_gold: i64,
    pub new_gem: i64,
    /// True when the balances must be written back: something positive was collected.
    pub pays: bool,
}

/// Collects `gold` and `gem` onto the player's balances; the changes are reported for the
/// positive amounts only, and no list is sent when there is none.
pub fn collect(balance_gold: i64, balance_gem: i64, gold: i64, gem: i64) -> (r: MailCollection)
    requires
        i64::MIN <= balance_gold + gold <= i64::MAX,
        i64::MIN <= balance_gem + gem <= i64::MAX,
    ensures
        r.new_gold == balance_gold + gold,
        r.new_gem == balance_gem + gem,
        r.pays == (gold > 0 || gem > 0),
        r.result.currency_results is None <==> !(gold > 0 || gem > 0),
        r.result.currency_results is Some ==> changes_of(r.result.currency_results->0@)
            == paid_changes(gold as int, gem as int, balance_gold + gold, balance_gem + gem),
{
    let new_gold = balance_gold + gold;
    let new_gem = balance_gem + gem;
    let mut out: Vec<CurrencyResultInfo3> = Vec::new();
    if gold > 0 {
        out.push(CurrencyResultInfo3 { currency_type: 1, add_value: gold, new_value: new_gold });
    }
    if gem > 0 {
        out.push(CurrencyResultInfo3 { currency_type: 2, add_value: gem, new_value: new_gem });
    }
    proof {
        assert(changes_of(out@) =~= paid_changes(gold as int, gem as int, new_gold as int, new_gem as int));
    }
    let pays = gold > 0 || gem > 0;
    MailCollection {
        result: MailReceiveResult { currency_results: if out.len() == 0 { None } else { Some(out) } },
        new_gold,
        new_gem,
        pays,
    }
}

/// The rewards of one mail: absent amounts count as 0.
pub open spec fn reward_of(m: (Option<i64>, Option<i64>)) -> (int, int) {
    (match m.0 { Some(g) => g as int, None => 0 }, match m.1 { Some(g) => g as int, None => 0 })
}

/// The gold and gems of a list of mails.
pub open spec fn rewards_total(mails: Seq<(Option<i64>, Option<i64>)>) -> (int, int)
    decreases mails.len(),
{
    if mails.len() == 0 {
        (0, 0)
    } else {
        let (g, e) = rewards_total(mails.drop_last());
        let (g1, e1) = reward_of(mails.last());
        (g + g1, e + e1)
    }
}

/// True when every running total of a list of mails fits in `i64`.
pub open spec fn totals_fit(mails: Seq<(Option<i64>, Option<i64>)>) -> bool {
    forall|k: int| 0 <= k <= mails.len() ==> {
        let (g, e) = #[trigger] rewards_total(mails.take(k));
        i64::MIN <= g <= i64::MAX && i64::MIN <= e <= i64::MAX
    }
}

/// Adds up the gold and gems of the mails collected together.
pub fn mail_totals(mails: &Vec<(Option<i64>, Option<i64>)>) -> (r: (i64, i64))
    requires
        totals_fit(mails@),
    ensures
        (r.0 as int, r.1 as int) == rewards_total(mails@),
{
    let mut gold: i64 = 0;
    let mut gem: i64 = 0;
    let mut i: usize = 0;
    while i < mails.len()
        invariant
            i <= mails@.len(),
            totals_fit(mails@),
            (gold as int, gem as int) == rewards_total(mails@.take(i as int)),
        decreases mails@.len() - i,
    {
        proof {
            assert(mails@.take(i + 1).drop_last() =~= mails@.take(i as int));
            let (g, e) = rewards_total(mails@.take(i + 1));
            assert(i64::MIN <= g <= i64::MAX && i64::MIN <= e <= i64::MAX);
        }
        let g1: i64 = match mails[i].0 { Some(g) => g, None => 0 };
        let e1: i64 = match mails[i].1 { Some(e) => e, None => 0 };
        gold = gold + g1;
        gem = gem + e1;
        i = i + 1;
    }
    proof {
        assert(mails@.take(mails@.len() as int) =~= mails@);
    }
    (gold, gem)
}

/// Collects every listed mail at once: nothing to collect gives an empty answer; otherwise
/// the amounts are added up and paid together, and the count of mails is reported. Gives
/// the answer and, when mail was collected, the new gold and gem balances and whether they
/// changed.
pub fn receive_all_mail(mails: &Vec<(Option<i64>, Option<i64>)>, balance_gold: i64, balance_gem: i64)
    -> (r: (ReceiveAllMailResponse, Option<(i64, i64, bool)>))
    requires
        totals_fit(mails@),
        i64::MIN <= balance_gold + rewards_total(mails@).0 <= i64::MAX,
        i64::MIN <= balance_gem + rewards_total(mails@).1 <= i64::MAX,
        mails@.len() <= i32::MAX,
    ensures
        r.0.base_result == BASE_SUCCESS,
        r.0.result == 0,
        mails@.len() == 0 ==> r.0.mail_receive_results@.len() == 0 && r.0.received_mail_count == 0 && r.1 is None,
        mails@.len() > 0 ==> ({
            let (g, e) = rewards_total(mails@);
            &&& r.0.received_mail_count == mails@.len()
            &&& r.0.mail_receive_results@.len() == 1
            &&& (r.0.mail_receive_results@[0].currency_results is None <==> !(g > 0 || e > 0))
            &&& (r.0.mail_receive_results@[0].currency_results is Some ==>
                changes_of(r.0.mail_receive_results@[0].currency_results->0@)
                    == paid_changes(g, e, balance_gold + g, balance_gem + e))
            &&& r.1 == Some(((balance_gold + g) as i64, (balance_gem + e) as i64, g > 0 || e > 0))
        }),
{
    if mails.len() == 0 {
        return (ReceiveAllMailResponse {
            base_result: BASE_SUCCESS,
            result: 0,
            mail_receive_results: Vec::new(),
            received_mail_count: 0,
        }, None);
    }
    let (gold, gem) = mail_totals(mails);
    let c = collect(balance_gold, balance_gem, gold, gem);
    let paid = Some((c.new_gold, c.new_gem, c.pays));
    (ReceiveAllMailResponse {
        base_result: BASE_SUCCESS,
        result: 0,
        mail_receive_results: vec![c.result],
        received_mail_count: mails.len() as i32,
    }, paid)
}

/// Collects one mail: absent amounts count as 0. Gives the answer, the new gold and gem
/// balances, and whether they changed.
pub fn receive_mail(reward: (Option<i64>, Option<i64>), balance_gold: i64, balance_gem: i64)
    -> (r: (ReceiveMailResponse, (i64, i64, bool)))
    requires
        i64::MIN <= balance_gold + reward_of(reward).0 <= i64::MAX,
        i64::MIN <= balance_gem + reward_of(reward).1 <= i64::MAX,
    ensures
        ({
            let (g, e) = reward_of(reward);
            &&& r.0.base_result == BASE_SUCCESS
            &&& r.0.result == 0
            &&& (r.0.mail_receive_result.currency_results is None <==> !(g > 0 || e > 0))
            &&& (r.0.mail_receive_result.currency_results is Some ==>
                changes_of(r.0.mail_receive_result.currency_results->0@)
                    == paid_changes(g, e, balance_gold + g, balance_gem + e))
            &&& r.1 == ((balance_gold + g) as i64, (balance_gem + e) as i64, g > 0 || e > 0)
        }),
{
    let gold: i64 = match reward.0 { Some(g) => g, None => 0 };
    let gem: i64 = match reward.1 { Some(e) => e, None => 0 };
    let c = collect(balance_gold, balance_gem, gold, gem);
    (ReceiveMailResponse { base_result: BASE_SUCCESS, result: 0, mail_receive_result: c.result }, (c.new_gold, c.new_gem, c.pays))
}

/// The balance after collecting each mail in turn.
pub open spec fn collect_each(balance: int, mails: Seq<(Option<i64>, Option<i64>)>) -> (int, int)
    decreases mails.len(),
{
    if mails.len() == 0 {
        (balance, balance)
    } else {
        let prev = collect_each(balance, mails.drop_last());
        (prev.0 + reward_of(mails.last()).0, prev.1 + reward_of(mails.last()).1)
    }
}

/// Collecting every mail at once pays what collecting them one by one pays.
pub proof fn lemma_collect_all_is_one_by_one(gold: int, gem: int, mails: Seq<(Option<i64>, Option<i64>)>)
    ensures
        collect_each(gold, mails).0 == gold + rewards_total(mails).0,
        collect_each(gem, mails).1 == gem + rewards_total(mails).1,
    decreases mails.len(),
{
    if mails.len() > 0 {
        lemma_collect_all_is_one_by_one(gold, gem, mails.drop_last());
    }
}

/// A stored mail as the listing reads it.
pub struct MailRow {
    pub mail_id: i64,
    pub sender: Option<String>,
    pub title: Option<String>,
    pub content: Option<String>,
    pub reward_gold: Option<i32>,
    pub reward_gem: Option<i32>,
    pub expires_at: Option<String>,
    pub item_infos: Option<Vec<MailItemInfo>>,
}

/// Shows a stored mail to its receiver: a missing sender reads `System`, missing texts
/// read empty and missing amounts 0; the other fields are empty.
pub fn mail_info(row: MailRow, receiver: i64) -> (r: MailInfo)
    ensures
        r.mail_index == row.mail_id,
        r.sender_id == 0,
        r.sender_name@ == (match row.sender { Some(s) => s@, None => "System"@ }),
        r.receiver_id == receiver,
        r.title@ == (match row.title { Some(s) => s@, None => Seq::<char>::empty() }),
        r.content@ == (match row.content { Some(s) => s@, None => Seq::<char>::empty() }),
        r.send_gold == (match row.reward_gold { Some(v) => v, None => 0 }),
        r.send_gem == (match row.reward_gem { Some(v) => v, None => 0 }),
        r.read_time@ == Seq::<char>::empty(),
        r.expire_time@ == (match row.expires_at { Some(s) => s@, None => Seq::<char>::empty() }),
        r.item_infos == row.item_infos,
        r.currency_infos is None,
        r.open_index == 0,
        r.pvp_coin == 0 && r.mileage == 0 && r.lua_point == 0 && r.guild_point == 0,
        r.world_boss_point == 0 && r.event_dungeon_point == 0 && r.event_dungeon_point2 == 0,
        r.glory_point == 0 && r.event_gift_point == 0,
        r.send_chicken == 0 && r.send_sword == 0 && r.send_sword2 == 0,
        r.send_underground_prison_key == 0 && r.send_underground_labyrinth_key == 0,
        r.send_hideout_key == 0 && r.send_challenge_tower_key == 0 && r.send_maze_key == 0,
        r.open_time@ == Seq::<char>::empty(),
        r.open_remain_time == 0,
{
    proof {
        reveal_strlit("");
    }
    MailInfo {
        mail_index: row.mail_id,
        open_index: 0,
        sender_id: 0,
        sender_name: match row.sender { Some(s) => s, None => String::from_str("System") },
        receiver_id: receiver,
        title: match row.title { Some(s) => s, None => String::new() },
        content: match row.content { Some(s) => s, None => String::new() },
        send_gold: match row.reward_gold { Some(v) => v, None => 0 },
        send_gem: match row.reward_gem { Some(v) => v, None => 0 },
        pvp_coin: 0,
        mileage: 0,
        lua_point: 0,
        guild_point: 0,
        world_boss_point: 0,
        event_dungeon_point: 0,
        event_dungeon_point2: 0,
        glory_point: 0,
        event_gift_point: 0,
        send_chicken: 0,
        send_sword: 0,
        send_sword2: 0,
        send_underground_prison_key: 0,
        send_underground_labyrinth_key: 0,
        send_hideout_key: 0,
        send_challenge_tower_key: 0,
        send_maze_key: 0,
        read_time: String::new(),
        expire_time: match row.expires_at { Some(s) => s, None => String::new() },
        open_time: String::new(),
        open_remain_time: 0,
        item_infos: row.item_infos,
        currency_infos: None,
    }
}

} // verus!
