//! Player balances and how a signed currency change applies to them.
use vstd::prelude::*;
use crate::error::{rule, is_rule, ServerError};
use crate::text::str_eq;

verus! {

/// Every balance a currency change can touch.
pub struct Wallet {
    pub gold: i64,
    /// Free gems; spent before paid ones.
    pub gem: i64,
    /// Paid gems.
    pub pay_gem: i64,
    pub mileage: i64,
    pub friendship_point: i64,
    pub pvp_coin: i64,
    pub royal_point: i64,
    pub raid_point: i64,
    pub world_boss_point: i64,
    pub shakmeh_middle_boss_point: i64,
    pub guild_point: i64,
    pub guild_arena_point: i64,
}

/// The largest balance a column may hold.
pub open spec fn cap() -> int {
    2147483647
}

/// True when every balance lies between 0 and the column cap.
pub open spec fn valid_wallet(w: Wallet) -> bool {
    &&& 0 <= w.gold <= cap()
    &&& 0 <= w.gem <= cap()
    &&& 0 <= w.pay_gem <= cap()
    &&& 0 <= w.mileage <= cap()
    &&& 0 <= w.friendship_point <= cap()
    &&& 0 <= w.pvp_coin <= cap()
    &&& 0 <= w.royal_point <= cap()
    &&& 0 <= w.raid_point <= cap()
    &&& 0 <= w.world_boss_point <= cap()
    &&& 0 <= w.shakmeh_middle_boss_point <= cap()
    &&& 0 <= w.guild_point <= cap()
    &&& 0 <= w.guild_arena_point <= cap()
}

/// The single-column balance a currency name stands for (gems excluded).
pub open spec fn column_of(w: Wallet, kind: Seq<char>) -> Option<i64> {
    if kind == "Gold"@ { Some(w.gold) }
    else if kind == "Mileage"@ { Some(w.mileage) }
    else if kind == "FriendshipPoint"@ { Some(w.friendship_point) }
    else if kind == "PvpCoin"@ { Some(w.pvp_coin) }
    else if kind == "RoyalPoint"@ { Some(w.royal_point) }
    else if kind == "RaidPoint"@ { Some(w.raid_point) }
    else if kind == "WorldBossPoint"@ { Some(w.world_boss_point) }
    else if kind == "ShakmehMiddleBossPoint"@ { Some(w.shakmeh_middle_boss_point) }
    else if kind == "GuildPoint"@ { Some(w.guild_point) }
    else if kind == "GuildArenaPoint"@ { Some(w.guild_arena_point) }
    else { None }
}

/// The wallet with the single-column balance of `kind` set to `v`.
pub open spec fn with_column(w: Wallet, kind: Seq<char>, v: i64) -> Wallet {
    if kind == "Gold"@ { Wallet { gold: v, ..w } }
    else if kind == "Mileage"@ { Wallet { mileage: v, ..w } }
    else if kind == "FriendshipPoint"@ { Wallet { friendship_point: v, ..w } }
    else if kind == "PvpCoin"@ { Wallet { pvp_coin: v, ..w } }
    else if kind == "RoyalPoint"@ { Wallet { royal_point: v, ..w } }
    else if kind == "RaidPoint"@ { Wallet { raid_point: v, ..w } }
    else if kind == "WorldBossPoint"@ { Wallet { world_boss_point: v, ..w } }
    else if kind == "ShakmehMiddleBossPoint"@ { Wallet { shakmeh_middle_boss_point: v, ..w } }
    else if kind == "GuildPoint"@ { Wallet { guild_point: v, ..w } }
    else if kind == "GuildArenaPoint"@ { Wallet { guild_arena_point: v, ..w } }
    else { w }
}

/// How a change of `amount` in currency `kind` applies: the new wallet, or the rule code
/// it is refused with.
pub open spec fn currency_change(w: Wallet, kind: Seq<char>, amount: int) -> Result<Wallet, Seq<char>> {
    if kind == "Gem"@ && amount < 0 {
        if w.gem + w.pay_gem < -amount {
            Err("NotEnough"@ + kind)
        } else {
            let used_free = if w.gem <= -amount { w.gem as int } else { -amount };
            Ok(Wallet { gem: (w.gem - used_free) as i64, pay_gem: (w.pay_gem + amount + used_free) as i64, ..w })
        }
    } else if kind == "Gem"@ {
        if !(0 <= w.gem + amount <= cap()) {
            Err("NotEnough"@ + kind)
        } else {
            Ok(Wallet { gem: (w.gem + amount) as i64, ..w })
        }
    } else {
        match column_of(w, kind) {
            Some(old) => if 0 <= old + amount <= cap() {
                Ok(with_column(w, kind, (old + amount) as i64))
            } else {
                Err("NotEnough"@ + kind)
            },
            None => Err("InvalidCost"@),
        }
    }
}

/// The single-column balance of `kind` in `w`.
fn column(w: &Wallet, kind: &str) -> (r: Option<i64>)
    ensures
        r == column_of(*w, kind@),
{
    if str_eq(kind, "Gold") { Some(w.gold) }
    else if str_eq(kind, "Mileage") { Some(w.mileage) }
    else if str_eq(kind, "FriendshipPoint") { Some(w.friendship_point) }
    else if str_eq(kind, "PvpCoin") { Some(w.pvp_coin) }
    else if str_eq(kind, "RoyalPoint") { Some(w.royal_point) }
    else if str_eq(kind, "RaidPoint") { Some(w.raid_point) }
    else if str_eq(kind, "WorldBossPoint") { Some(w.world_boss_point) }
    else if str_eq(kind, "ShakmehMiddleBossPoint") { Some(w.shakmeh_middle_boss_point) }
    else if str_eq(kind, "GuildPoint") { Some(w.guild_point) }
    else if str_eq(kind, "GuildArenaPoint") { Some(w.guild_arena_point) }
    else { None }
}

/// `w` with the single-column balance of `kind` set to `v`.
fn set_column(w: &Wallet, kind: &str, v: i64) -> (r: Wallet)
    ensures
        r == with_column(*w, kind@, v),
{
    let mut r = Wallet { ..*w };
    if str_eq(kind, "Gold") { r.gold = v; }
    else if str_eq(kind, "Mileage") { r.mileage = v; }
    else if str_eq(kind, "FriendshipPoint") { r.friendship_point = v; }
    else if str_eq(kind, "PvpCoin") { r.pvp_coin = v; }
    else if str_eq(kind, "RoyalPoint") { r.royal_point = v; }
    else if str_eq(kind, "RaidPoint") { r.raid_point = v; }
    else if str_eq(kind, "WorldBossPoint") { r.world_boss_point = v; }
    else if str_eq(kind, "ShakmehMiddleBossPoint") { r.shakmeh_middle_boss_point = v; }
    else if str_eq(kind, "GuildPoint") { r.guild_point = v; }
    else if str_eq(kind, "GuildArenaPoint") { r.guild_arena_point = v; }
    r
}

fn not_enough(kind: &str) -> (e: ServerError)
    ensures
        is_rule(e, "NotEnough"@ + kind@),
{
    ServerError::InvalidRequest(String::from_str("NotEnough").concat(kind))
}

/// Applies a signed change of `amount` to currency `kind`. Spending gems uses free gems
/// first and paid gems for the rest; every other change must keep its column between 0
/// and the cap.
pub fn currency(w: &Wallet, kind: &str, amount: i64) -> (r: Result<Wallet, ServerError>)
    ensures
        match currency_change(*w, kind@, amount as int) {
            Ok(n) => r == Ok::<Wallet, ServerError>(n),
            Err(code) => r is Err && is_rule(r->Err_0, code),
        },
{
    if str_eq(kind, "Gem") && amount < 0 {
        if (w.gem as i128) + (w.pay_gem as i128) < -(amount as i128) {
            return Err(not_enough(kind));
        }
        let spend: i128 = -(amount as i128);
        let used_free: i128 = if (w.gem as i128) <= spend { w.gem as i128 } else { spend };
        let new_free = (w.gem as i128) - used_free;
        let new_paid = (w.pay_gem as i128) + (amount as i128) + used_free;
        return Ok(Wallet { gem: new_free as i64, pay_gem: new_paid as i64, ..*w });
    }
    if str_eq(kind, "Gem") {
        if (w.gem as i128) + (amount as i128) > 2147483647 || (w.gem as i128) + (amount as i128) < 0 {
            return Err(not_enough(kind));
        }
        return Ok(Wallet { gem: ((w.gem as i128) + (amount as i128)) as i64, ..*w });
    }
    match column(w, kind) {
        Some(old) => {
            let next = (old as i128) + (amount as i128);
            if 0 <= next && next <= 2147483647 {
                Ok(set_column(w, kind, next as i64))
            } else {
                Err(not_enough(kind))
            }
        },
        None => Err(rule("InvalidCost")),
    }
}

/// Gold and gem changes only; any other currency is refused with `Fail`.
pub fn money(w: &Wallet, kind: &str, amount: i64) -> (r: Result<Wallet, ServerError>)
    ensures
        if kind@ == "Gold"@ || kind@ == "Gem"@ {
            match currency_change(*w, kind@, amount as int) {
                Ok(n) => r == Ok::<Wallet, ServerError>(n),
                Err(code) => r is Err && is_rule(r->Err_0, code),
            }
        } else {
            r is Err && is_rule(r->Err_0, "Fail"@)
        },
{
    if !(str_eq(kind, "Gold") || str_eq(kind, "Gem")) {
        return Err(rule("Fail"));
    }
    currency(w, kind, amount)
}

/// Spending gems keeps the gem total exact, keeps both balances valid, and touches paid
/// gems only once the free ones are gone.
pub proof fn lemma_gem_spend(w: Wallet, amount: int)
    requires
        valid_wallet(w),
        amount < 0,
        currency_change(w, "Gem"@, amount) is Ok,
    ensures
        ({
            let n = currency_change(w, "Gem"@, amount)->Ok_0;
            &&& n.gem + n.pay_gem == w.gem + w.pay_gem + amount
            &&& valid_wallet(n)
            &&& n.pay_gem < w.pay_gem ==> n.gem == 0
            &&& n.gold == w.gold && n.mileage == w.mileage
        }),
{
}

/// A change that is accepted leaves every balance valid.
pub proof fn lemma_currency_keeps_valid(w: Wallet, kind: Seq<char>, amount: int)
    requires
        valid_wallet(w),
        currency_change(w, kind, amount) is Ok,
    ensures
        valid_wallet(currency_change(w, kind, amount)->Ok_0),
{
}

/// Spending an amount of a single-column currency and then earning it back restores the
/// wallet.
pub proof fn lemma_spend_then_refund(w: Wallet, kind: Seq<char>, amount: int)
    requires
        valid_wallet(w),
        kind != "Gem"@,
        amount >= 0,
        currency_change(w, kind, -amount) is Ok,
    ensures
        currency_change(currency_change(w, kind, -amount)->Ok_0, kind, amount) == Ok::<Wallet, Seq<char>>(w),
{
    let n = currency_change(w, kind, -amount)->Ok_0;
    assert(column_of(n, kind) == Some((column_of(w, kind)->0 - amount) as i64));
}

/// A spend is refused exactly when the balance is short of it.
pub proof fn lemma_spend_refused_iff_short(w: Wallet, kind: Seq<char>, amount: int)
    requires
        valid_wallet(w),
        amount > 0,
        kind != "Gem"@,
        column_of(w, kind) is Some,
    ensures
        (currency_change(w, kind, -amount) is Err) <==> column_of(w, kind)->0 < amount,
{
}

} // verus!
