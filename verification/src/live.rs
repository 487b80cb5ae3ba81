//! Live operations: request fields, the rule table, timed offers, summons and pets.
use vstd::prelude::*;
use crate::error::{rule, is_rule, ServerError};
use crate::forms::Request;
use crate::lists::{distinct, json_int_array};
use crate::text::str_eq;
use vstd::string::StrSliceExecFns;

verus! {

/// Calls `chrono::Utc::now().timestamp()`: the current time in seconds since the Unix
/// epoch, whatever the clock says; chrono represents no date outside 262145 BCE to
/// 262143 CE, so the time lies well within 2^52 seconds of the epoch either way.
#[verifier::external_body]
fn utc_now() -> (r: i64)
    ensures
        -0x10_0000_0000_0000 <= r <= 0x10_0000_0000_0000,
{
    chrono::Utc::now().timestamp()
}

/// The current time in seconds since the Unix epoch.
pub fn now() -> (r: i64)
    ensures
        -0x10_0000_0000_0000 <= r <= 0x10_0000_0000_0000,
{
    utc_now()
}

/// What `chrono::DateTime::from_timestamp(t, 0)` writes with `%Y-%m-%d %H:%M:%S`, the Unix
/// epoch standing in for a time chrono cannot represent.
pub uninterp spec fn timestamp_text(t: int) -> Seq<char>;

/// Calls `chrono::DateTime::from_timestamp(t, 0)` (the epoch when out of range) and
/// formats it as `%Y-%m-%d %H:%M:%S`; the text is named by `timestamp_text`.
#[verifier::external_body]
pub(crate) fn time(t: i64) -> (r: String)
    ensures
        r@ == timestamp_text(t as int),
{
    chrono::DateTime::from_timestamp(t, 0).unwrap_or_default().format("%Y-%m-%d %H:%M:%S").to_string()
}

/// What `chrono::NaiveDateTime::parse_from_str` gives for a text written
/// `%Y-%m-%d %H:%M:%S`, read as UTC, in seconds since the Unix epoch; nothing when the text
/// is not such a time.
pub uninterp spec fn parsed_time(s: Seq<char>) -> Option<i64>;

/// Calls `chrono::NaiveDateTime::parse_from_str(s, "%Y-%m-%d %H:%M:%S")` and reads the
/// time as UTC seconds (`and_utc().timestamp()`); the result is named by `parsed_time`.
/// chrono represents no date outside 262145 BCE to 262143 CE, so a parsed time lies
/// well within 2^52 seconds of the epoch.
#[verifier::external_body]
fn parse_time(s: &str) -> (r: Option<i64>)
    ensures
        r == parsed_time(s@),
        r matches Some(t) ==> -0x10_0000_0000_0000 <= t <= 0x10_0000_0000_0000,
{
    match chrono::NaiveDateTime::parse_from_str(s, "%Y-%m-%d %H:%M:%S") {
        Ok(t) => Some(t.and_utc().timestamp()),
        Err(_) => None,
    }
}

/// The time a stored field holds, in seconds since the Unix epoch: its text read as
/// `%Y-%m-%d %H:%M:%S` UTC, or 0 when the field is no text or no such time.
pub open spec fn stored_time(v: Option<&str>) -> i64 {
    match v {
        Some(s) => match parsed_time(s@) {
            Some(t) => t,
            None => 0i64,
        },
        None => 0i64,
    }
}

/// Reads the time a stored field holds (see `stored_time`).
pub fn timestamp(v: Option<&str>) -> (r: i64)
    ensures
        r == stored_time(v),
        -0x10_0000_0000_0000 <= r <= 0x10_0000_0000_0000,
{
    match v {
        Some(s) => match parse_time(s) {
            Some(t) => t,
            None => 0,
        },
        None => 0,
    }
}

/// Division rounding toward zero, as Rust divides integers.
pub open spec fn trunc_div(a: int, b: int) -> int {
    if a >= 0 { a / b } else { -((-a) / b) }
}

/// The day number of a time: whole days since the epoch, rounded toward zero.
pub fn day_of(t: i64) -> (r: i64)
    ensures
        r == trunc_div(t as int, 86400),
{
    if t >= 0 {
        t / 86400
    } else {
        let q = (-(t as i128)) / 86400;
        (-q) as i64
    }
}

/// Today's day number.
pub fn day() -> (r: i64)
    ensures
        exists|t: i64| r == #[trigger] trunc_div(t as int, 86400),
{
    let t = now();
    let d = day_of(t);
    proof {
        assert(d == trunc_div(t as int, 86400));
    }
    d
}

/// How a request field reads as a flag: empty, `0`, `false` or `False` is off; `1`,
/// `true` or `True` is on; anything else is no flag.
pub open spec fn flag_of(t: Seq<char>) -> Option<bool> {
    if t == ""@ || t == "0"@ || t == "false"@ || t == "False"@ {
        Some(false)
    } else if t == "1"@ || t == "true"@ || t == "True"@ {
        Some(true)
    } else {
        None
    }
}

/// Reads a flag field, refused with `InvalidValue` when it is none.
pub fn flag(r: &Request, k: &str) -> (res: Result<bool, ServerError>)
    ensures
        match flag_of(r.text_of(k@)) {
            Some(b) => res == Ok::<bool, ServerError>(b),
            None => res is Err && is_rule(res->Err_0, "InvalidValue"@),
        },
{
    let t = r.text(k);
    if str_eq(t, "") || str_eq(t, "0") || str_eq(t, "false") || str_eq(t, "False") {
        Ok(false)
    } else if str_eq(t, "1") || str_eq(t, "true") || str_eq(t, "True") {
        Ok(true)
    } else {
        Err(rule("InvalidValue"))
    }
}

/// A count field: 0 when absent, none outside `0..=i32::MAX` or when not a number.
pub open spec fn int_field_of(r: Request, k: Seq<char>) -> Option<i64> {
    match r.number_of(k, 0) {
        Some(v) => if 0 <= v <= i32::MAX { Some(v) } else { None },
        None => None,
    }
}

/// Reads a count field: 0 when absent, refused with `InvalidValue` outside `0..=i32::MAX`.
pub fn int_field(r: &Request, k: &str) -> (res: Result<i64, ServerError>)
    ensures
        match r.number_of(k@, 0) {
            Some(v) => if 0 <= v <= i32::MAX {
                res == Ok::<i64, ServerError>(v)
            } else {
                res is Err && is_rule(res->Err_0, "InvalidValue"@)
            },
            None => res is Err && is_rule(res->Err_0, "InvalidValue"@),
        },
{
    let v = r.number(k, 0)?;
    if v < 0 || v > i32::MAX as i64 {
        return Err(rule("InvalidValue"));
    }
    Ok(v)
}

/// True when an identifier lies outside `1..=i32::MAX`.
pub open spec fn bad_id(x: i64) -> bool {
    x <= 0 || x > i32::MAX
}

/// The list a field holds as JSON, an empty field holding the empty list.
pub open spec fn listed_ids(t: Seq<char>) -> Option<Seq<i64>> {
    if t.len() == 0 { Some(Seq::<i64>::empty()) } else { json_int_array(t) }
}

/// The identifiers a list field holds: an empty field is an empty list; the list must be
/// JSON, hold at most `max` entries, each in `1..=i32::MAX`, and (when `unique`) no repeat.
pub open spec fn ids_of(t: Seq<char>, max: int, unique: bool) -> Option<Seq<i64>> {
    match listed_ids(t) {
        None => None,
        Some(v) => if v.len() > max
            || (exists|i: int| 0 <= i < v.len() && #[trigger] bad_id(v[i]))
            || (unique && !distinct(v)) {
            None
        } else {
            Some(v)
        },
    }
}

/// Reads an identifier list field, refused with `InvalidValue` when `ids_of` gives none.
pub fn ids(r: &Request, k: &str, max: usize, unique: bool) -> (res: Result<Vec<i64>, ServerError>)
    ensures
        match ids_of(r.text_of(k@), max as int, unique) {
            Some(v) => res is Ok && res->Ok_0@ == v,
            None => res is Err && is_rule(res->Err_0, "InvalidValue"@),
        },
{
    let t = r.text(k);
    let v: Vec<i64> = if t.unicode_len() == 0 {
        Vec::new()
    } else {
        crate::lists::int_array(t, "InvalidValue")?
    };
    if v.len() > max {
        return Err(rule("InvalidValue"));
    }
    let mut i: usize = 0;
    while i < v.len()
        invariant
            i <= v@.len(),
            v@.len() <= max,
            t@ == r.text_of(k@),
            listed_ids(t@) == Some(v@),
            forall|j: int| 0 <= j < i ==> !#[trigger] bad_id(v@[j]),
        decreases v@.len() - i,
    {
        if v[i] <= 0 || v[i] > i32::MAX as i64 {
            proof {
                assert(bad_id(v@[i as int]));
            }
            return Err(rule("InvalidValue"));
        }
        i = i + 1;
    }
    if unique && !crate::lists::is_distinct(&v) {
        return Err(rule("InvalidValue"));
    }
    Ok(v)
}

} // verus!

verus! {

/// The live rule table's numeric settings: `(name, value)`, values that are not numbers
/// left out.
pub struct Settings {
    pub entries: Vec<(String, i64)>,
}

/// The value of the first setting named `k`.
pub open spec fn setting_value(e: Seq<(String, i64)>, k: Seq<char>) -> Option<i64>
    decreases e.len(),
{
    if e.len() == 0 {
        None
    } else {
        match setting_value(e.drop_last(), k) {
            Some(v) => Some(v),
            None => if e.last().0@ == k { Some(e.last().1) } else { None },
        }
    }
}

proof fn lemma_setting_prefix(e: Seq<(String, i64)>, n: int, k: Seq<char>)
    requires
        0 <= n <= e.len(),
        setting_value(e.take(n), k) is Some,
    ensures
        setting_value(e, k) == setting_value(e.take(n), k),
    decreases e.len() - n,
{
    if n < e.len() {
        assert(e.take(n + 1).drop_last() =~= e.take(n));
        lemma_setting_prefix(e, n + 1, k);
    } else {
        assert(e.take(n) =~= e);
    }
}

/// A numeric setting of the rule table, `d` when it is not set.
pub fn setting(s: &Settings, k: &str, d: i64) -> (r: i64)
    ensures
        r == (match setting_value(s.entries@, k@) { Some(v) => v, None => d }),
{
    let mut i: usize = 0;
    while i < s.entries.len()
        invariant
            i <= s.entries@.len(),
            setting_value(s.entries@.take(i as int), k@) is None,
        decreases s.entries@.len() - i,
    {
        proof {
            assert(s.entries@.take(i + 1).drop_last() =~= s.entries@.take(i as int));
        }
        if str_eq(s.entries[i].0.as_str(), k) {
            proof {
                lemma_setting_prefix(s.entries@, i + 1, k@);
            }
            return s.entries[i].1;
        }
        i = i + 1;
    }
    proof {
        assert(s.entries@.take(s.entries@.len() as int) =~= s.entries@);
    }
    d
}

/// The first currency name, in the table's order, whose number is `id`.
pub open spec fn currency_of(e: Seq<(String, i64)>, id: i64) -> Option<Seq<char>>
    decreases e.len(),
{
    if e.len() == 0 {
        None
    } else {
        match currency_of(e.drop_last(), id) {
            Some(n) => Some(n),
            None => if e.last().1 == id { Some(e.last().0@) } else { None },
        }
    }
}

proof fn lemma_currency_prefix(e: Seq<(String, i64)>, n: int, id: i64)
    requires
        0 <= n <= e.len(),
        currency_of(e.take(n), id) is Some,
    ensures
        currency_of(e, id) == currency_of(e.take(n), id),
    decreases e.len() - n,
{
    if n < e.len() {
        assert(e.take(n + 1).drop_last() =~= e.take(n));
        lemma_currency_prefix(e, n + 1, id);
    } else {
        assert(e.take(n) =~= e);
    }
}

/// The name of currency `id` in the rule table's currency enum, refused with `InvalidCost`
/// when the enum has no such number.
pub fn currency_name(currencies: &Vec<(String, i64)>, id: i64) -> (r: Result<String, ServerError>)
    ensures
        match currency_of(currencies@, id) {
            Some(n) => r is Ok && r->Ok_0@ == n,
            None => r is Err && is_rule(r->Err_0, "InvalidCost"@),
        },
{
    let mut i: usize = 0;
    while i < currencies.len()
        invariant
            i <= currencies@.len(),
            currency_of(currencies@.take(i as int), id) is None,
        decreases currencies@.len() - i,
    {
        proof {
            assert(currencies@.take(i + 1).drop_last() =~= currencies@.take(i as int));
        }
        if currencies[i].1 == id {
            proof {
                lemma_currency_prefix(currencies@, i + 1, id);
            }
            return Ok(currencies[i].0.clone());
        }
        i = i + 1;
    }
    proof {
        assert(currencies@.take(currencies@.len() as int) =~= currencies@);
    }
    Err(rule("InvalidCost"))
}

/// When a timed entry of the rule table runs.
pub struct Window {
    pub enabled: bool,
    pub begin: i64,
    pub end: i64,
}

/// True when an entry runs at `now`: enabled, begun (0 for always) and not ended (0 for
/// never).
pub open spec fn active_at(w: Window, now: int) -> bool {
    w.enabled && (w.begin == 0 || w.begin <= now) && (w.end == 0 || now < w.end)
}

/// Decides whether an entry runs at `now`.
pub fn active(w: &Window, now: i64) -> (r: bool)
    ensures
        r == active_at(*w, now as int),
{
    w.enabled && (w.begin == 0 || w.begin <= now) && (w.end == 0 || now < w.end)
}

/// A product of the rule table.
pub struct Product {
    pub index: i64,
    pub window: Window,
    pub price_type: i64,
    pub price: i64,
    pub reset_seconds: i64,
}

/// True when a product is on sale at `now`: running, with a price type and a price.
pub open spec fn on_sale(p: Product, now: int) -> bool {
    active_at(p.window, now) && p.price_type > 0 && p.price > 0
}

/// The positions of the products on sale at `now`, in order.
pub open spec fn sale_positions(ps: Seq<Product>, now: int) -> Seq<int>
    decreases ps.len(),
{
    if ps.len() == 0 {
        Seq::empty()
    } else if on_sale(ps.last(), now) {
        sale_positions(ps.drop_last(), now).push(ps.len() - 1)
    } else {
        sale_positions(ps.drop_last(), now)
    }
}

/// The products on sale at `now`, by position.
pub fn products(ps: &Vec<Product>, now: i64) -> (r: Vec<usize>)
    ensures
        r@.map_values(|i: usize| i as int) == sale_positions(ps@, now as int),
{
    let mut out: Vec<usize> = Vec::new();
    let mut i: usize = 0;
    while i < ps.len()
        invariant
            i <= ps@.len(),
            out@.map_values(|k: usize| k as int) == sale_positions(ps@.take(i as int), now as int),
        decreases ps@.len() - i,
    {
        proof {
            assert(ps@.take(i + 1).drop_last() =~= ps@.take(i as int));
        }
        let p = &ps[i];
        if active(&p.window, now) && p.price_type > 0 && p.price > 0 {
            out.push(i);
            proof {
                assert(out@.map_values(|k: usize| k as int)
                    =~= sale_positions(ps@.take(i as int), now as int).push(i as int));
            }
        }
        i = i + 1;
    }
    proof {
        assert(ps@.take(ps@.len() as int) =~= ps@);
    }
    out
}

/// The purchase period a time falls in: whole reset intervals since the epoch, rounded
/// toward zero, or 0 for a product that never resets.
pub fn period(p: &Product, now: i64) -> (r: i64)
    ensures
        r == (if p.reset_seconds > 0 { trunc_div(now as int, p.reset_seconds as int) } else { 0 }),
{
    if p.reset_seconds > 0 {
        if now >= 0 {
            now / p.reset_seconds
        } else {
            let q = (-(now as i128)) / (p.reset_seconds as i128);
            (-q) as i64
        }
    } else {
        0
    }
}

/// A pet as its record stores it.
pub struct PetState {
    pub status: i64,
    /// When the pet's penalty ends, in seconds since the epoch (0 for none).
    pub end_penalty_time: i64,
}

impl PetState {
    /// A pet from its stored status and penalty end time (`EndPenaltyTime`, a text).
    pub fn from_record(status: i64, end_penalty: Option<&str>) -> (r: PetState)
        ensures
            r.status == status,
            r.end_penalty_time == stored_time(end_penalty),
    {
        PetState { status, end_penalty_time: timestamp(end_penalty) }
    }
}

/// Refuses to use a pet that is away (status 2) or still under penalty at `now`.
pub fn available(v: &PetState, now: i64) -> (r: Result<(), ServerError>)
    ensures
        v.status == 2 || v.end_penalty_time > now ==> r is Err && is_rule(r->Err_0, "InvalidPetStatus"@),
        !(v.status == 2 || v.end_penalty_time > now) ==> r is Ok,
{
    if v.status == 2 || v.end_penalty_time > now {
        return Err(rule("InvalidPetStatus"));
    }
    Ok(())
}

} // verus!

verus! {

/// A summon's live configuration.
pub struct SummonConfig {
    pub window: Window,
    pub discount: i64,
    pub group: Option<String>,
    pub bonus_group: Option<String>,
    /// `(category, group, bonus group)` of each high-summon category.
    pub categories: Vec<(i64, (Option<String>, Option<String>))>,
}

/// A summon's table row.
pub struct GachaRow {
    pub index: i64,
    pub durational: i64,
    pub daily_max_free: i64,
}

/// The first position in `s` whose key is `id`.
pub open spec fn keyed<T>(s: Seq<(i64, T)>, id: i64) -> Option<int>
    decreases s.len(),
{
    if s.len() == 0 {
        None
    } else {
        match keyed(s.drop_last(), id) {
            Some(i) => Some(i),
            None => if s.last().0 == id { Some(s.len() - 1) } else { None },
        }
    }
}

proof fn lemma_keyed<T>(s: Seq<(i64, T)>, id: i64, n: int)
    requires
        0 <= n <= s.len(),
        keyed(s.take(n), id) is Some,
    ensures
        keyed(s, id) == keyed(s.take(n), id),
    decreases s.len() - n,
{
    if n < s.len() {
        assert(s.take(n + 1).drop_last() =~= s.take(n));
        lemma_keyed(s, id, n + 1);
    } else {
        assert(s.take(n) =~= s);
    }
}

pub(crate) proof fn lemma_keyed_bounds<T>(s: Seq<(i64, T)>, id: i64)
    ensures
        keyed(s, id) matches Some(i) ==> 0 <= i < s.len() && s[i].0 == id,
    decreases s.len(),
{
    if s.len() > 0 {
        lemma_keyed_bounds(s.drop_last(), id);
    }
}

pub(crate) fn find_keyed<T>(s: &Vec<(i64, T)>, id: i64) -> (r: Option<usize>)
    ensures
        r is Some <==> keyed(s@, id) is Some,
        r is Some ==> keyed(s@, id) == Some(r->0 as int) && r->0 < s@.len(),
{
    proof {
        lemma_keyed_bounds(s@, id);
    }
    let mut i: usize = 0;
    while i < s.len()
        invariant
            i <= s@.len(),
            keyed(s@.take(i as int), id) is None,
        decreases s@.len() - i,
    {
        proof {
            assert(s@.take(i + 1).drop_last() =~= s@.take(i as int));
        }
        if s[i].0 == id {
            proof {
                assert(keyed(s@.take(i + 1), id) == Some(i as int));
                lemma_keyed(s@, id, i + 1);
            }
            return Some(i);
        }
        i = i + 1;
    }
    proof {
        assert(s@.take(s@.len() as int) =~= s@);
    }
    None
}

/// The first gacha row with index `id`.
pub open spec fn gacha_row(rows: Seq<GachaRow>, id: i64) -> Option<int>
    decreases rows.len(),
{
    if rows.len() == 0 {
        None
    } else {
        match gacha_row(rows.drop_last(), id) {
            Some(i) => Some(i),
            None => if rows.last().index == id { Some(rows.len() - 1) } else { None },
        }
    }
}

proof fn lemma_gacha_row(rows: Seq<GachaRow>, id: i64, n: int)
    requires
        0 <= n <= rows.len(),
        gacha_row(rows.take(n), id) is Some,
    ensures
        gacha_row(rows, id) == gacha_row(rows.take(n), id),
    decreases rows.len() - n,
{
    if n < rows.len() {
        assert(rows.take(n + 1).drop_last() =~= rows.take(n));
        lemma_gacha_row(rows, id, n + 1);
    } else {
        assert(rows.take(n) =~= rows);
    }
}

/// Finds a summon running at `now`: its configuration (refused with `GachaDataNotFound`
/// when missing or not running) and its table row (refused with `ItemDataNotFound`).
pub fn definition(summons: &Vec<(i64, SummonConfig)>, rows: &Vec<GachaRow>, id: i64, now: i64)
    -> (r: Result<(usize, usize), ServerError>)
    ensures
        match keyed(summons@, id) {
            None => r is Err && is_rule(r->Err_0, "GachaDataNotFound"@),
            Some(c) => if !active_at(summons@[c].1.window, now as int) {
                r is Err && is_rule(r->Err_0, "GachaDataNotFound"@)
            } else {
                match gacha_row(rows@, id) {
                    None => r is Err && is_rule(r->Err_0, "ItemDataNotFound"@),
                    Some(g) => r == Ok::<(usize, usize), ServerError>((c as usize, g as usize)) && g < rows@.len(),
                }
            },
        },
{
    let c = match find_keyed(summons, id) {
        Some(c) => c,
        None => { return Err(rule("GachaDataNotFound")); },
    };
    if !active(&summons[c].1.window, now) {
        return Err(rule("GachaDataNotFound"));
    }
    let mut i: usize = 0;
    while i < rows.len()
        invariant
            i <= rows@.len(),
            gacha_row(rows@.take(i as int), id) is None,
            c < summons@.len(),
            keyed(summons@, id) == Some(c as int),
            active_at(summons@[c as int].1.window, now as int),
        decreases rows@.len() - i,
    {
        proof {
            assert(rows@.take(i + 1).drop_last() =~= rows@.take(i as int));
        }
        if rows[i].index == id {
            proof {
                assert(gacha_row(rows@.take(i + 1), id) == Some(i as int));
                lemma_gacha_row(rows@, id, i + 1);
            }
            return Ok((c, i));
        }
        i = i + 1;
    }
    proof {
        assert(rows@.take(rows@.len() as int) =~= rows@);
    }
    Err(rule("ItemDataNotFound"))
}

/// The player's daily summon record.
pub struct SummonState {
    pub daily_free: i64,
    pub last_free: i64,
}

/// A summon's free draws as the client shows them.
pub struct FreeGachaInfo {
    pub gacha_index: i64,
    pub last_gacha_time: Option<String>,
    pub last_gacha_reset_time: String,
    pub remain_day_gacha_chance: i64,
    pub reset_remain_time: i64,
}

/// The latest time a timed entry may end: 2100-01-01.
pub open spec fn far_future() -> int {
    4102444800
}

/// True when `now` leaves room for a day of arithmetic either way.
pub open spec fn sane_time(now: int) -> bool {
    -0x4000_0000_0000_0000 <= now <= 0x4000_0000_0000_0000
}

/// The free draws left today and when they reset, at `now`.
pub fn free(d: &GachaRow, v: &SummonState, now: i64) -> (r: FreeGachaInfo)
    requires
        sane_time(now as int),
        i64::MIN <= d.daily_max_free - v.daily_free <= i64::MAX,
    ensures
        ({
            let today = trunc_div(now as int, 86400);
            &&& r.gacha_index == d.index
            &&& (v.last_free > 0 ==> r.last_gacha_time is Some
                && r.last_gacha_time->0@ == timestamp_text(v.last_free as int))
            &&& (v.last_free <= 0 ==> r.last_gacha_time is None)
            &&& r.last_gacha_reset_time@ == timestamp_text(today * 86400)
            &&& r.remain_day_gacha_chance == (if d.daily_max_free - v.daily_free > 0 { d.daily_max_free - v.daily_free } else { 0 })
            &&& r.reset_remain_time == (if (today + 1) * 86400 - now > 0 { (today + 1) * 86400 - now } else { 0 })
        }),
{
    let today = day_of(now);
    let left = d.daily_max_free - v.daily_free;
    let wait = (today + 1) * 86400 - now;
    FreeGachaInfo {
        gacha_index: d.index,
        last_gacha_time: if v.last_free > 0 { Some(time(v.last_free)) } else { None },
        last_gacha_reset_time: time(today * 86400),
        remain_day_gacha_chance: if left > 0 { left } else { 0 },
        reset_remain_time: if wait > 0 { wait } else { 0 },
    }
}

/// A summon as the client lists it.
pub struct GachaInfo {
    pub gacha_index: i64,
    pub begin_time: String,
    pub end_time: String,
    pub on_sale: bool,
    pub discount: i64,
    pub durational: i64,
    pub sale_reset_time: String,
    pub progress_reset_time: String,
    pub is_utc_begin_time: i32,
    pub is_utc_end_time: i32,
    pub is_utc_progress_reset_time: i32,
    pub remain_number_of_discount: i32,
}

/// Lists a summon at `now`: an open end reads as 2100-01-01, and the sale resets at the
/// next midnight.
pub fn info(d: &GachaRow, cfg: &SummonConfig, now: i64) -> (r: GachaInfo)
    requires
        sane_time(now as int),
    ensures
        r.gacha_index == d.index,
        r.begin_time@ == timestamp_text(cfg.window.begin as int),
        r.end_time@ == timestamp_text(if cfg.window.end > 0 { cfg.window.end as int } else { far_future() }),
        r.on_sale,
        r.discount == cfg.discount,
        r.durational == d.durational,
        r.sale_reset_time@ == timestamp_text((trunc_div(now as int, 86400) + 1) * 86400),
        r.progress_reset_time@ == timestamp_text(far_future()),
        r.is_utc_begin_time == 1 && r.is_utc_end_time == 1 && r.is_utc_progress_reset_time == 1,
        r.remain_number_of_discount == 0,
{
    let today = day_of(now);
    GachaInfo {
        gacha_index: d.index,
        begin_time: time(cfg.window.begin),
        end_time: time(if cfg.window.end > 0 { cfg.window.end } else { 4102444800 }),
        on_sale: true,
        discount: cfg.discount,
        durational: d.durational,
        sale_reset_time: time((today + 1) * 86400),
        progress_reset_time: time(4102444800),
        is_utc_begin_time: 1,
        is_utc_end_time: 1,
        is_utc_progress_reset_time: 1,
        remain_number_of_discount: 0,
    }
}

/// The item group a summon draws from: for a high-summon category (`HighGachaCategory`
/// above 0), that category's group or bonus group; otherwise the summon's bonus group
/// (when `bonus`) falling back to its group. A missing group is refused with
/// `GachaItemGroupCodeDataNotFound`.
pub fn pool(cfg: &SummonConfig, r: &Request, bonus: bool) -> (res: Result<String, ServerError>)
    ensures
        match r.number_of("HighGachaCategory"@, 0) {
            None => res is Err && is_rule(res->Err_0, "InvalidValue"@),
            Some(c) => if !(0 <= c <= i32::MAX) {
                res is Err && is_rule(res->Err_0, "InvalidValue"@)
            } else if c > 0 {
                match keyed(cfg.categories@, c) {
                    Some(i) => {
                        let g = if bonus { cfg.categories@[i].1.1 } else { cfg.categories@[i].1.0 };
                        match g {
                            Some(s) => res is Ok && res->Ok_0@ == s@,
                            None => res is Err && is_rule(res->Err_0, "GachaItemGroupCodeDataNotFound"@),
                        }
                    },
                    None => res is Err && is_rule(res->Err_0, "GachaItemGroupCodeDataNotFound"@),
                }
            } else {
                let g = if bonus && cfg.bonus_group is Some { cfg.bonus_group } else { cfg.group };
                match g {
                    Some(s) => res is Ok && res->Ok_0@ == s@,
                    None => res is Err && is_rule(res->Err_0, "GachaItemGroupCodeDataNotFound"@),
                }
            },
        },
{
    let category = int_field(r, "HighGachaCategory")?;
    if category > 0 {
        match find_keyed(&cfg.categories, category) {
            Some(i) => {
                let g = if bonus { &cfg.categories[i].1.1 } else { &cfg.categories[i].1.0 };
                match g {
                    Some(s) => Ok(s.clone()),
                    None => Err(rule("GachaItemGroupCodeDataNotFound")),
                }
            },
            None => Err(rule("GachaItemGroupCodeDataNotFound")),
        }
    } else {
        let g = if bonus && cfg.bonus_group.is_some() { &cfg.bonus_group } else { &cfg.group };
        match g {
            Some(s) => Ok(s.clone()),
            None => Err(rule("GachaItemGroupCodeDataNotFound")),
        }
    }
}

} // verus!

verus! {

/// The part of a path before its first `/` (all of it when there is none).
pub open spec fn first_part(s: Seq<char>) -> Seq<char> {
    s.subrange(0, crate::text::find_char(s, '/'))
}

/// The part of a path after its last `/` (all of it when there is none).
pub open spec fn last_part(s: Seq<char>) -> Seq<char>
    decreases s.len(),
{
    if s.len() == 0 {
        Seq::empty()
    } else if s.last() == '/' {
        Seq::empty()
    } else {
        last_part(s.drop_last()).push(s.last())
    }
}

proof fn lemma_last_part(s: Seq<char>, j: int)
    requires
        0 <= j <= s.len(),
        forall|k: int| j <= k < s.len() ==> s[k] != '/',
        j == 0 || s[j - 1] == '/',
    ensures
        last_part(s) == s.subrange(j, s.len() as int),
    decreases s.len(),
{
    if s.len() > j {
        lemma_last_part(s.drop_last(), j);
        assert(s.subrange(j, s.len() as int) =~= s.drop_last().subrange(j, s.len() - 1).push(s.last()));
    } else if s.len() > 0 {
        assert(s.last() == '/');
    }
}

fn path_parts(path: &str) -> (r: (Vec<char>, Vec<char>))
    ensures
        r.0@ == first_part(path@),
        r.1@ == last_part(path@),
{
    let cs = crate::text::chars_of(path);
    let n = cs.len();
    let f = crate::text::find_char_in(&cs, '/', 0, n);
    proof {
        assert(cs@.subrange(0, n as int) =~= cs@);
    }
    let mut first: Vec<char> = Vec::new();
    let mut i: usize = 0;
    while i < f
        invariant
            f <= n,
            n == cs@.len(),
            i <= f,
            first@ == cs@.subrange(0, i as int),
        decreases f - i,
    {
        first.push(cs[i]);
        proof {
            assert(cs@.subrange(0, i + 1) =~= cs@.subrange(0, i as int).push(cs@[i as int]));
        }
        i = i + 1;
    }
    let mut j = n;
    while j > 0 && cs[j - 1] != '/'
        invariant
            j <= n,
            n == cs@.len(),
            forall|k: int| j <= k < n ==> cs@[k] != '/',
        decreases j,
    {
        j = j - 1;
    }
    proof {
        lemma_last_part(cs@, j as int);
    }
    let mut last: Vec<char> = Vec::new();
    let mut k = j;
    while k < n
        invariant
            j <= k <= n,
            n == cs@.len(),
            last@ == cs@.subrange(j as int, k as int),
        decreases n - k,
    {
        last.push(cs[k]);
        proof {
            assert(cs@.subrange(j as int, k + 1) =~= cs@.subrange(j as int, k as int).push(cs@[k as int]));
        }
        k = k + 1;
    }
    (first, last)
}

/// The service of a live request.
#[derive(PartialEq, Eq, Structural, Clone, Copy)]
pub enum LiveFamily {
    Summons,
    Pets,
    Offers,
    Events,
}

/// The service for a live request path: pet draws and equipment draws go to summons, the
/// other pet requests to pets, shop requests to offers, and the rest to events.
pub open spec fn live_family_of(path: Seq<char>) -> LiveFamily {
    let first = first_part(path);
    let last = last_part(path);
    if first == "pet"@ {
        if last == "exec_pet_gacha"@ || last == "pet_gacha_roof_reward"@ { LiveFamily::Summons } else { LiveFamily::Pets }
    } else if first == "equip_gacha"@ {
        LiveFamily::Summons
    } else if first == "shop"@ {
        LiveFamily::Offers
    } else {
        LiveFamily::Events
    }
}

fn chars_are(v: &Vec<char>, t: &str) -> (r: bool)
    ensures
        r == (v@ == t@),
{
    let n = t.unicode_len();
    if v.len() != n {
        return false;
    }
    let mut i: usize = 0;
    while i < n
        invariant
            n == t@.len(),
            v@.len() == n,
            i <= n,
            forall|k: int| 0 <= k < i ==> v@[k] == t@[k],
        decreases n - i,
    {
        if v[i] != t.get_char(i) {
            return false;
        }
        i = i + 1;
    }
    proof {
        assert(v@ =~= t@);
    }
    true
}

/// Routes a live request by its path; see `live_family_of`.
pub fn live_family(path: &str) -> (r: LiveFamily)
    ensures
        r == live_family_of(path@),
{
    let (first, last) = path_parts(path);
    if chars_are(&first, "pet") {
        if chars_are(&last, "exec_pet_gacha") || chars_are(&last, "pet_gacha_roof_reward") {
            LiveFamily::Summons
        } else {
            LiveFamily::Pets
        }
    } else if chars_are(&first, "equip_gacha") {
        LiveFamily::Summons
    } else if chars_are(&first, "shop") {
        LiveFamily::Offers
    } else {
        LiveFamily::Events
    }
}

/// The value a response field starts with, by its declared type.
#[derive(PartialEq, Eq, Structural, Clone, Copy)]
pub enum FieldDefault {
    EmptyList,
    False,
    Zero,
    Null,
}

/// A list type (ending in `[]`) starts empty, `bool` false, the integer types at 0, and
/// any other type as null.
pub open spec fn field_default_of(t: Seq<char>) -> FieldDefault {
    if t.len() >= 2 && t.subrange(t.len() - 2, t.len() as int) == "[]"@ {
        FieldDefault::EmptyList
    } else if t == "bool"@ {
        FieldDefault::False
    } else if t == "int"@ || t == "long"@ || t == "byte"@ || t == "sbyte"@ {
        FieldDefault::Zero
    } else {
        FieldDefault::Null
    }
}

/// The starting value of a response field; see `field_default_of`.
pub fn field_default(t: &str) -> (r: FieldDefault)
    ensures
        r == field_default_of(t@),
{
    let n = t.unicode_len();
    proof {
        reveal_strlit("[]");
    }
    if n >= 2 && t.get_char(n - 2) == '[' && t.get_char(n - 1) == ']' {
        proof {
            assert(t@.subrange(n - 2, n as int) =~= "[]"@);
        }
        return FieldDefault::EmptyList;
    }
    proof {
        if n >= 2 {
            assert(t@.subrange(n - 2, n as int)[0] == t@[n - 2]);
            assert(t@.subrange(n - 2, n as int)[1] == t@[n - 1]);
        }
    }
    if str_eq(t, "bool") {
        FieldDefault::False
    } else if str_eq(t, "int") || str_eq(t, "long") || str_eq(t, "byte") || str_eq(t, "sbyte") {
        FieldDefault::Zero
    } else {
        FieldDefault::Null
    }
}

/// The result code a refused live request answers with: the rule's code when the request
/// lists it among its results, `Fail` otherwise.
pub fn result_code(allowed: &Vec<String>, code: &str) -> (r: String)
    ensures
        (exists|k: int| 0 <= k < allowed@.len() && #[trigger] allowed@[k]@ == code@) ==> r@ == code@,
        !(exists|k: int| 0 <= k < allowed@.len() && #[trigger] allowed@[k]@ == code@) ==> r@ == "Fail"@,
{
    let mut i: usize = 0;
    while i < allowed.len()
        invariant
            i <= allowed@.len(),
            forall|k: int| 0 <= k < i ==> allowed@[k]@ != code@,
        decreases allowed@.len() - i,
    {
        if str_eq(allowed[i].as_str(), code) {
            proof {
                assert(allowed@[i as int]@ == code@);
            }
            return String::from_str(code);
        }
        i = i + 1;
    }
    String::from_str("Fail")
}

} // verus!
