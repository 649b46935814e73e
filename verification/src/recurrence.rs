//! Next-occurrence computation for recurring tasks.
//!
//! `daily` and `weekly` advance the anchor timestamp by whole days or weeks.
//! `monthly` advances the civil month by `interval`, rolling the year while
//! the month exceeds twelve, and clamps the day of month to the target
//! month's length. Any other frequency yields no next occurrence.

use chrono::Datelike;
use vstd::prelude::*;
use vstd::arithmetic::div_mod::lemma_fundamental_div_mod_converse;
use vstd::string::StringExecFns;
use crate::dates::{
    MS_PER_DAY, MS_LIMIT, days_in_month, valid_date, day_number, date_of_day_number,
    get_days_in_month, lemma_day_number_inverse,
};
use crate::model::{RecurrenceRule, RuleView};

verus! {

/// Year rollover by repeated subtraction: month total `t` (1-based, possibly
/// far above 12) becomes a `(year, month)` pair with the month in `1..=12`.
pub open spec fn roll(y: int, t: int) -> (int, int)
    decreases t,
{
    if t <= 12 {
        (y, t)
    } else {
        roll(y + 1, t - 12)
    }
}

/// The timestamp `interval` months after `from`, day clamped to the target
/// month's length, time of day kept.
pub open spec fn monthly_next(from: int, k: int) -> int {
    let n = from / (MS_PER_DAY as int);
    let tod = from % (MS_PER_DAY as int);
    let (y, m, d) = date_of_day_number(n);
    let (ty, tm) = roll(y, m + k);
    let td = if d <= days_in_month(ty, tm) {
        d
    } else {
        days_in_month(ty, tm)
    };
    day_number(ty, tm, td) * (MS_PER_DAY as int) + tod
}

/// What the next occurrence of a rule anchored at `from` is, if any.
pub open spec fn next_occurrence_spec(rule: RuleView, from: int) -> Option<int> {
    if rule.freq == "daily"@ {
        Some(from + rule.interval * (MS_PER_DAY as int))
    } else if rule.freq == "weekly"@ {
        Some(from + rule.interval * 7 * (MS_PER_DAY as int))
    } else if rule.freq == "monthly"@ {
        Some(monthly_next(from, rule.interval as int))
    } else {
        None
    }
}

/// The machine bounds under which the next occurrence is computable: the
/// result fits in a `u64` and, for a monthly rule, the anchor and target
/// dates stay below year 10000.
pub open spec fn next_fits(rule: RuleView, from: u64) -> bool {
    if rule.freq == "daily"@ {
        from + rule.interval * (MS_PER_DAY as int) <= u64::MAX
    } else if rule.freq == "weekly"@ {
        from + rule.interval * 7 * (MS_PER_DAY as int) <= u64::MAX
    } else if rule.freq == "monthly"@ {
        &&& from < MS_LIMIT
        &&& ({
            let (y, m, d) = date_of_day_number(from as int / (MS_PER_DAY as int));
            roll(y, m + rule.interval).0 < 10000
        })
    } else {
        true
    }
}

/// Relies on chrono: `DateTime::<Utc>::from_timestamp_millis` followed by
/// the `Datelike` accessors `year`, `month` and `day` give the UTC civil
/// date that contains a millisecond timestamp.
#[verifier::external_body]
fn civil_of_ms(ms: u64) -> (r: (i32, u32, u32))
    requires
        ms < MS_LIMIT,
    ensures
        (r.0 as int, r.1 as int, r.2 as int) == date_of_day_number(
            ms as int / (MS_PER_DAY as int),
        ),
        1970 <= r.0 < 10000,
        valid_date(r.0 as int, r.1 as int, r.2 as int),
{
    let dt = chrono::DateTime::from_timestamp_millis(ms as i64).unwrap();
    (dt.year(), dt.month(), dt.day())
}

/// Relies on chrono: `NaiveDate::from_ymd_opt` with `and_hms_opt(0, 0, 0)`,
/// `and_utc` and `timestamp_millis` give the millisecond timestamp of a
/// civil date's midnight, UTC.
#[verifier::external_body]
fn ms_of_civil(y: i32, m: u32, d: u32) -> (r: u64)
    requires
        valid_date(y as int, m as int, d as int),
        1970 <= y < 10000,
    ensures
        r as int == day_number(y as int, m as int, d as int) * (MS_PER_DAY as int),
        r < MS_LIMIT,
{
    let date = chrono::NaiveDate::from_ymd_opt(y, m, d).unwrap();
    let dt = date.and_hms_opt(0, 0, 0).unwrap();
    dt.and_utc().timestamp_millis() as u64
}

/// The rolled year never falls below the starting year.
proof fn lemma_roll_year_ge(y: int, t: int)
    ensures
        roll(y, t).0 >= y,
    decreases t,
{
    if t > 12 {
        lemma_roll_year_ge(y + 1, t - 12);
    }
}

/// Year rollover in closed form: rolling month total `t` from year `y`
/// lands on year `y + (t - 1) / 12` and month `(t - 1) % 12 + 1`, for any
/// positive `t` — in particular for intervals beyond twelve months.
pub proof fn lemma_roll_closed_form(y: int, t: int)
    requires
        t >= 1,
    ensures
        roll(y, t) == (y + (t - 1) / 12, (t - 1) % 12 + 1),
    decreases t,
{
    if t <= 12 {
        assert(roll(y, t) == (y, t));
        assert((t - 1) / 12 == 0 && (t - 1) % 12 == t - 1);
    } else {
        lemma_roll_closed_form(y + 1, t - 12);
        assert(t - 1 == (t - 13) + 12);
        assert((t - 1) / 12 == (t - 13) / 12 + 1 && (t - 1) % 12 == (t - 13) % 12) by {
            lemma_fundamental_div_mod_converse(
                t - 1,
                12,
                (t - 13) / 12 + 1,
                (t - 13) % 12,
            );
        }
    }
}

/// A monthly rule anchored on the last day of a month yields the last day
/// of the target month whenever the anchor's day of month is at least the
/// target month's length.
pub proof fn lemma_monthly_clamps_to_month_end(rule: RuleView, y: int, m: int, d: int, tod: int)
    requires
        rule.freq == "monthly"@,
        1970 <= y,
        valid_date(y, m, d),
        d == days_in_month(y, m),
        0 <= tod < MS_PER_DAY,
        days_in_month(roll(y, m + rule.interval).0, roll(y, m + rule.interval).1) <= d,
    ensures
        ({
            let from = day_number(y, m, d) * (MS_PER_DAY as int) + tod;
            let (ty, tm) = roll(y, m + rule.interval);
            next_occurrence_spec(rule, from) == Some(
                day_number(ty, tm, days_in_month(ty, tm)) * (MS_PER_DAY as int) + tod,
            )
        }),
{
    reveal_strlit("daily");
    reveal_strlit("weekly");
    reveal_strlit("monthly");
    assert(rule.freq != "daily"@ && rule.freq != "weekly"@) by {
        assert("daily"@.len() == 5 && "weekly"@.len() == 6 && "monthly"@.len() == 7);
    }
    let from = day_number(y, m, d) * (MS_PER_DAY as int) + tod;
    let dn = day_number(y, m, d);
    lemma_fundamental_div_mod_converse(from, MS_PER_DAY as int, dn, tod);
    assert(from / (MS_PER_DAY as int) == dn);
    assert(from % (MS_PER_DAY as int) == tod);
    lemma_day_number_inverse(y, m, d);
}

/// The next occurrence of `rule` anchored at `from`, per
/// [`next_occurrence_spec`]; `None` exactly for an unknown frequency.
pub fn next_occurrence(rule: &RecurrenceRule, from: u64) -> (r: Option<u64>)
    requires
        next_fits(rule.deep_view(), from),
    ensures
        match r {
            Some(n) => next_occurrence_spec(rule.deep_view(), from as int) == Some(n as int),
            None => next_occurrence_spec(rule.deep_view(), from as int) is None,
        },
{
    if rule.freq == String::from_str("daily") {
        let step: u64 = (rule.interval as u64) * MS_PER_DAY;
        proof {
            assert(rule.interval as int * (MS_PER_DAY as int) <= 0xffff_ffff * (
            MS_PER_DAY as int)) by (nonlinear_arith)
                requires
                    rule.interval <= 0xffff_ffffu32,
            ;
        }
        Some(from + step)
    } else if rule.freq == String::from_str("weekly") {
        let step: u64 = (rule.interval as u64) * 7 * MS_PER_DAY;
        proof {
            assert(rule.interval as int * 7 * (MS_PER_DAY as int) <= 0xffff_ffff * 7 * (
            MS_PER_DAY as int)) by (nonlinear_arith)
                requires
                    rule.interval <= 0xffff_ffffu32,
            ;
        }
        Some(from + step)
    } else if rule.freq == String::from_str("monthly") {
        let (y0, m0, d0) = civil_of_ms(from);
        let tod: u64 = from % MS_PER_DAY;
        let ghost tot: int = m0 as int + rule.interval as int;
        let mut ty: i32 = y0;
        let mut t: u64 = m0 as u64 + rule.interval as u64;
        proof {
            lemma_roll_year_ge(y0 as int, tot);
        }
        while t > 12
            invariant
                1 <= t,
                y0 <= ty,
                roll(ty as int, t as int) == roll(y0 as int, tot),
                roll(ty as int, t as int).0 >= ty,
                roll(y0 as int, tot).0 < 10000,
            decreases t,
        {
            t = t - 12;
            ty = ty + 1;
            proof {
                lemma_roll_year_ge(ty as int, t as int);
            }
        }
        let tm: u32 = t as u32;
        let dim: u32 = get_days_in_month(ty, tm);
        let td: u32 = if d0 <= dim {
            d0
        } else {
            dim
        };
        let base: u64 = ms_of_civil(ty, tm, td);
        Some(base + tod)
    } else {
        None
    }
}

/// Checks the machine bounds of [`next_fits`] at run time.
#[verifier::loop_isolation(false)]
pub fn next_fits_check(rule: &RecurrenceRule, from: u64) -> (r: bool)
    ensures
        r == next_fits(rule.deep_view(), from),
{
    if rule.freq == String::from_str("daily") {
        let step: u64 = (rule.interval as u64) * MS_PER_DAY;
        proof {
            assert(rule.interval as int * (MS_PER_DAY as int) <= 0xffff_ffff * (
            MS_PER_DAY as int)) by (nonlinear_arith)
                requires
                    rule.interval <= 0xffff_ffffu32,
            ;
        }
        from <= u64::MAX - step
    } else if rule.freq == String::from_str("weekly") {
        let step: u64 = (rule.interval as u64) * 7 * MS_PER_DAY;
        proof {
            assert(rule.interval as int * 7 * (MS_PER_DAY as int) <= 0xffff_ffff * 7 * (
            MS_PER_DAY as int)) by (nonlinear_arith)
                requires
                    rule.interval <= 0xffff_ffffu32,
            ;
        }
        from <= u64::MAX - step
    } else if rule.freq == String::from_str("monthly") {
        if from >= MS_LIMIT {
            return false;
        }
        let (y0, m0, d0) = civil_of_ms(from);
        let ghost tot: int = m0 as int + rule.interval as int;
        let mut ty: i32 = y0;
        let mut t: u64 = m0 as u64 + rule.interval as u64;
        proof {
            lemma_roll_year_ge(y0 as int, tot);
        }
        while t > 12
            invariant
                1 <= t,
                y0 <= ty,
                ty < 10000 + 1,
                roll(ty as int, t as int) == roll(y0 as int, tot),
                roll(ty as int, t as int).0 >= ty,
            decreases t,
        {
            if ty >= 10000 {
                proof {
                    assert(roll(y0 as int, tot).0 >= ty as int);
                }
                return false;
            }
            t = t - 12;
            ty = ty + 1;
            proof {
                lemma_roll_year_ge(ty as int, t as int);
            }
        }
        ty < 10000
    } else {
        true
    }
}

} // verus!
