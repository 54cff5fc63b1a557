//! Time arithmetic: a journey's hour/minute departure plus a whole-minute
//! travel offset, rendered as "HH:MM". The hour is the running total and
//! is never reduced modulo 24: a trip that crosses midnight keeps counting
//! (25:10 is ten past one on the following service day).

use vstd::prelude::*;

use crate::model::{FeedError, KnownJourney};
use crate::numfmt::{dec_val, is_dec, pad2, parse_u64, u128_to_dec_pad2};

verus! {

/// The hour field of a departure `offset` minutes after hour:minute.
pub open spec fn time_fmt_hour(hour: nat, minute: nat, offset: nat) -> nat {
    hour + (minute + offset) / 60
}

/// The minute field of a departure `offset` minutes after hour:minute.
pub open spec fn time_fmt_minute(hour: nat, minute: nat, offset: nat) -> nat {
    (minute + offset) % 60
}

/// The full "HH:MM" rendering, both fields zero-padded to two digits,
/// the hour left unreduced however large it grows.
pub open spec fn time_fmt(hour: nat, minute: nat, offset: nat) -> Seq<char> {
    pad2(time_fmt_hour(hour, minute, offset)) + ":"@ + pad2(time_fmt_minute(hour, minute, offset))
}

/// A journey whose hour and minute fields parse as decimal `u64`s: the
/// precondition for producing any trip or stop-time row from it, and a
/// fatal error where it fails.
pub open spec fn journey_time_ok(j: KnownJourney) -> bool {
    &&& is_dec(j.hour@)
    &&& dec_val(j.hour@) <= u64::MAX
    &&& is_dec(j.minute@)
    &&& dec_val(j.minute@) <= u64::MAX
}

/// The formatted wall-clock time of `j`'s departure seen `offset` minutes
/// down the route.
pub open spec fn journey_time(j: KnownJourney, offset: nat) -> Seq<char> {
    time_fmt(dec_val(j.hour@), dec_val(j.minute@), offset)
}

/// Formats hour:minute plus `offset` minutes. Total for every input:
/// no overflow, no panic, no modulo-24 reduction of the hour.
pub fn format_time(hour: u64, minute: u64, offset: u64) -> (r: String)
    ensures
        r@ == time_fmt(hour as nat, minute as nat, offset as nat),
{
    let total: u128 = minute as u128 + offset as u128;
    let h: u128 = hour as u128 + total / 60;
    let m: u128 = total % 60;
    let mut s = u128_to_dec_pad2(h);
    s.append(":");
    let ms = u128_to_dec_pad2(m);
    s.append(ms.as_str());
    proof {
        assert(s@ =~= time_fmt(hour as nat, minute as nat, offset as nat));
    }
    s
}

/// Parses the journey's hour and minute and formats its departure
/// `offset` minutes down the route. `Err` exactly when a field is
/// malformed — the engine's one fatal condition.
pub fn journey_departure(j: &KnownJourney, offset: u64) -> (r: Result<String, FeedError>)
    ensures
        r is Ok <==> journey_time_ok(*j),
        r is Ok ==> r->Ok_0@ == journey_time(*j, offset as nat),
{
    let hour = match parse_u64(j.hour.as_str()) {
        Some(h) => h,
        None => {
            return Err(FeedError::MalformedTime);
        },
    };
    let minute = match parse_u64(j.minute.as_str()) {
        Some(m) => m,
        None => {
            return Err(FeedError::MalformedTime);
        },
    };
    Ok(format_time(hour, minute, offset))
}

/// Law: the two formatted fields encode exactly `hour*60 + minute + offset`
/// total minutes — nothing is dropped at a day boundary.
pub proof fn lemma_time_fmt_total_minutes(hour: nat, minute: nat, offset: nat)
    ensures
        time_fmt_hour(hour, minute, offset) * 60 + time_fmt_minute(hour, minute, offset) == hour
            * 60 + minute + offset,
{
    vstd::arithmetic::div_mod::lemma_fundamental_div_mod((minute + offset) as int, 60);
}

/// Law: the formatted time is monotonic in the offset — a later stop on
/// the same journey never shows an earlier encoded time.
pub proof fn lemma_time_fmt_monotonic(hour: nat, minute: nat, off1: nat, off2: nat)
    requires
        off1 <= off2,
    ensures
        time_fmt_hour(hour, minute, off1) * 60 + time_fmt_minute(hour, minute, off1)
            <= time_fmt_hour(hour, minute, off2) * 60 + time_fmt_minute(hour, minute, off2),
{
    lemma_time_fmt_total_minutes(hour, minute, off1);
    lemma_time_fmt_total_minutes(hour, minute, off2);
}

} // verus!
