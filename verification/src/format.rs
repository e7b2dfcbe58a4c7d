//! Formatting helpers for the admin report: RFC3339 timestamps (through the
//! `time` crate), fixed-point percentages, and the per-backend JSON array.

use vstd::prelude::*;
use vstd::string::*;
use time::format_description::well_known::Rfc3339;
use crate::strutil::{dec_str, digit_char, fmt_u64, push_char};

verus! {

/// What formatting a unix-seconds timestamp as RFC3339 yields.
pub uninterp spec fn rfc3339_of(secs: u64) -> Seq<char>;

/// Relies on `time::OffsetDateTime::from_unix_timestamp` and
/// `format(&Rfc3339)` (time 0.3): the text is a function of the timestamp
/// alone.
#[verifier::external_body]
fn rfc3339_utc(secs: u64) -> (r: String)
    ensures
        r@ == rfc3339_of(secs),
{
    match time::OffsetDateTime::from_unix_timestamp(secs as i64) {
        Ok(dt) => dt.format(&Rfc3339).unwrap_or_else(|_| "invalid".to_string()),
        Err(_) => "invalid".to_string(),
    }
}

/// Format a unix-seconds timestamp as RFC3339, or `never` when absent.
pub fn format_timestamp(time: Option<u64>) -> (r: String)
    ensures
        match time {
            Some(t) => r@ == rfc3339_of(t),
            None => r@ == "never"@,
        },
{
    match time {
        Some(t) => rfc3339_utc(t),
        None => String::from_str("never"),
    }
}

/// Tenths of a percent that `count` of `total` makes, rounded half-up;
/// zero when `total` is zero.
pub open spec fn permille_of(count: u64, total: u64) -> int {
    if total == 0 {
        0int
    } else {
        (count * 1000 + total / 2) / (total as int)
    }
}

/// The text `format_percentage` produces: the permille split around a
/// decimal point, with a percent sign.
pub open spec fn percentage_text(count: u64, total: u64) -> Seq<char> {
    let p = permille_of(count, total);
    dec_str((p / 10) as nat) + seq!['.'] + seq![digit_char(p % 10)] + seq!['%']
}

/// Format `count` of `total` as a percentage with one decimal place.
pub fn format_percentage(count: u64, total: u64) -> (r: String)
    ensures
        r@ == percentage_text(count, total),
{
    let whole: u128;
    let tenth: u128;
    if total == 0 {
        whole = 0;
        tenth = 0;
    } else {
        let p: u128 = ((count as u128) * 1000 + (total as u128) / 2) / (total as u128);
        whole = p / 10;
        tenth = p % 10;
    }
    let mut out = fmt_u128(whole);
    push_char(&mut out, '.');
    push_char(&mut out, (48 + (tenth as u8)) as char);
    push_char(&mut out, '%');
    proof {
        assert(out@ =~= percentage_text(count, total));
    }
    out
}

/// Decimal formatting of a 128-bit unsigned number.
pub fn fmt_u128(n: u128) -> (r: String)
    ensures
        r@ == dec_str(n as nat),
    decreases n,
{
    if n < 10 {
        let mut s = String::new();
        push_char(&mut s, ((48 + n as u8)) as char);
        proof {
            assert(s@ =~= seq![digit_char(n as int)]);
        }
        s
    } else {
        let mut s = fmt_u128(n / 10);
        push_char(&mut s, (48 + (n % 10) as u8) as char);
        s
    }
}

/// The JSON object one backend entry formats to.
pub open spec fn backend_json_text(entry: (String, u64), total: u64) -> Seq<char> {
    "{\"address\":\""@ + entry.0@ + "\",\"selections\":"@ + dec_str(entry.1 as nat)
        + ",\"percentage\":"@ + dec_str((permille_of(entry.1, total) / 10) as nat) + seq!['.']
        + seq![digit_char(permille_of(entry.1, total) % 10)] + seq!['}']
}

/// The JSON array text of a selection list.
pub open spec fn selections_json_text(entries: Seq<(String, u64)>, total: u64) -> Seq<char>
    decreases entries.len(),
{
    if entries.len() == 0 {
        Seq::empty()
    } else if entries.len() == 1 {
        backend_json_text(entries[0], total)
    } else {
        selections_json_text(entries.drop_last(), total) + seq![','] + backend_json_text(
            entries.last(),
            total,
        )
    }
}

/// Format per-backend selections as a JSON array of objects with address,
/// selections and percentage fields.
#[verifier::loop_isolation(false)]
pub fn format_backend_selections_json(selections: &Vec<(String, u64)>, total: u64) -> (r: String)
    ensures
        r@ == seq!['['] + selections_json_text(selections@, total) + seq![']'],
{
    let mut out = String::from_str("[");
    proof {
        reveal_strlit("[");
        assert(out@ =~= seq!['[']);
    }
    let n = selections.len();
    let mut i: usize = 0;
    while i < n
        invariant
            i <= n,
            out@ == seq!['['] + selections_json_text(selections@.subrange(0, i as int), total),
        decreases n - i,
    {
        if i > 0 {
            push_char(&mut out, ',');
        }
        let entry_text = format_backend_entry(&selections[i], total);
        out.append(entry_text.as_str());
        proof {
            assert(selections@.subrange(0, i + 1).drop_last() =~= selections@.subrange(
                0,
                i as int,
            ));
            assert(selections@.subrange(0, i + 1).last() == selections@[i as int]);
            if i == 0 {
                assert(out@ =~= seq!['['] + selections_json_text(
                    selections@.subrange(0, i + 1),
                    total,
                ));
            } else {
                assert(out@ =~= seq!['['] + selections_json_text(
                    selections@.subrange(0, i + 1),
                    total,
                ));
            }
        }
        i += 1;
    }
    proof {
        assert(selections@.subrange(0, n as int) =~= selections@);
    }
    push_char(&mut out, ']');
    out
}

/// Format one backend selection entry as a JSON object.
fn format_backend_entry(entry: &(String, u64), total: u64) -> (r: String)
    ensures
        r@ == backend_json_text(*entry, total),
{
    let mut out = String::from_str("{\"address\":\"");
    out.append(entry.0.as_str());
    out.append("\",\"selections\":");
    out.append(fmt_u64(entry.1).as_str());
    out.append(",\"percentage\":");
    let pct: u128;
    let tenth: u128;
    if total == 0 {
        pct = 0;
        tenth = 0;
    } else {
        let p: u128 = ((entry.1 as u128) * 1000 + (total as u128) / 2) / (total as u128);
        pct = p / 10;
        tenth = p % 10;
    }
    out.append(fmt_u128(pct).as_str());
    push_char(&mut out, '.');
    push_char(&mut out, (48 + (tenth as u8)) as char);
    push_char(&mut out, '}');
    proof {
        assert(out@ =~= backend_json_text(*entry, total));
    }
    out
}

} // verus!
