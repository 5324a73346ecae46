//! Balance history and financial figures over the ledger's rows.
//! The rows are (date, amount) pairs as the store returns them, ordered by
//! date; a window keeps the rows dated on or after its first day.
use vstd::prelude::*;
use crate::database::DatabaseManager;
use crate::error::LedgerError;
use crate::models::{BalancePoint, FinancialMetrics, Ratio};

verus! {

/// Most rows that the analytics take in one call, so that every sum and
/// product of them fits in 128 bits.
pub const MAX_ROWS: usize = 4294967295;

/// Stand-in for "effectively unbounded" runway and income tension.
pub const UNBOUNDED: i128 = 999;

/// Length, in days, of the burn-rate, income-tension and volatility window.
pub const MONTH_DAYS: u64 = 30;

/// Length, in days, of the drawdown window.
pub const QUARTER_DAYS: u64 = 90;

/// Largest magnitude of a balance that `max_drawdown` and `balance_variance`
/// take in.
pub const BALANCE_LIMIT: i128 = 39614081257132168796771975168;

/// The ISO-8601 text of the day `days` days before `today`, or `None` when
/// `today` is not such a date or the result leaves the calendar.
pub uninterp spec fn iso_date_before(today: Seq<char>, days: int) -> Option<Seq<char>>;

/// Relies on chrono's NaiveDate::parse_from_str, checked_sub_days and
/// format, all with "%Y-%m-%d": calendar arithmetic on ISO dates.
#[verifier::external_body]
fn date_before(today: &str, days: u64) -> (r: Option<String>)
    ensures
        match r {
            Some(s) => iso_date_before(today@, days as int) == Some(s@),
            None => iso_date_before(today@, days as int) is None,
        },
{
    let day = chrono::NaiveDate::parse_from_str(today, "%Y-%m-%d").ok()?;
    let earlier = day.checked_sub_days(chrono::Days::new(days))?;
    Some(earlier.format("%Y-%m-%d").to_string())
}

/// One row of the ledger as the analytics read it.
pub struct DatedAmount {
    pub date: String,
    pub amount: i64,
}

/// Lexicographic order on texts; on ISO dates it is the calendar order.
pub open spec fn text_le(a: Seq<char>, b: Seq<char>) -> bool
    decreases a.len(),
{
    if a.len() == 0 {
        true
    } else if b.len() == 0 {
        false
    } else if a[0] != b[0] {
        (a[0] as u32) < (b[0] as u32)
    } else {
        text_le(a.drop_first(), b.drop_first())
    }
}

/// Each row is dated on or after the one before it.
pub open spec fn dates_ordered(rows: Seq<DatedAmount>) -> bool {
    forall|i: int| 0 < i < rows.len() ==> text_le(rows[i - 1].date@, #[trigger] rows[i].date@)
}

pub open spec fn in_window(r: DatedAmount, since: Seq<char>) -> bool {
    text_le(since, r.date@)
}

pub open spec fn is_expense_in(r: DatedAmount, since: Seq<char>) -> bool {
    in_window(r, since) && r.amount < 0
}

/// Sum of all amounts.
pub open spec fn total(rows: Seq<DatedAmount>) -> int
    decreases rows.len(),
{
    if rows.len() == 0 {
        0
    } else {
        total(rows.drop_last()) + rows.last().amount
    }
}

/// Sum of the magnitudes of the negative amounts in the window.
pub open spec fn expense_total(rows: Seq<DatedAmount>, since: Seq<char>) -> int
    decreases rows.len(),
{
    if rows.len() == 0 {
        0
    } else {
        expense_total(rows.drop_last(), since) + if is_expense_in(rows.last(), since) {
            -rows.last().amount
        } else {
            0
        }
    }
}

/// Sum of the positive amounts in the window.
pub open spec fn income_total(rows: Seq<DatedAmount>, since: Seq<char>) -> int
    decreases rows.len(),
{
    if rows.len() == 0 {
        0
    } else {
        income_total(rows.drop_last(), since) + if in_window(rows.last(), since)
            && rows.last().amount > 0 {
            rows.last().amount as int
        } else {
            0
        }
    }
}

/// An earlier row than `i` is an expense in the window on the same day.
pub open spec fn expense_day_seen(rows: Seq<DatedAmount>, i: int, since: Seq<char>) -> bool {
    exists|j: int|
        0 <= j < i && is_expense_in(#[trigger] rows[j], since) && rows[j].date@ == rows[i].date@
}

/// Number of distinct days with at least one expense in the window.
pub open spec fn expense_days(rows: Seq<DatedAmount>, since: Seq<char>) -> int
    decreases rows.len(),
{
    if rows.len() == 0 {
        0
    } else {
        expense_days(rows.drop_last(), since) + if is_expense_in(rows.last(), since)
            && !expense_day_seen(rows, rows.len() - 1, since) {
            1int
        } else {
            0
        }
    }
}

pub open spec fn last_balance(h: Seq<(Seq<char>, int)>) -> int {
    if h.len() == 0 {
        0
    } else {
        h.last().1
    }
}

/// Balance history of the window: the rows are walked in order, each run of
/// rows with one date gives one point, and a point's balance is the sum of
/// the window's amounts up to the end of its run. For rows in date order
/// (`dates_ordered`) each run is one day that has rows.
pub open spec fn history(rows: Seq<DatedAmount>, since: Seq<char>) -> Seq<(Seq<char>, int)>
    decreases rows.len(),
{
    if rows.len() == 0 {
        seq![]
    } else {
        let h = history(rows.drop_last(), since);
        let r = rows.last();
        if !in_window(r, since) {
            h
        } else if h.len() > 0 && h.last().0 == r.date@ {
            h.update(h.len() - 1, (r.date@, h.last().1 + r.amount))
        } else {
            h.push((r.date@, last_balance(h) + r.amount))
        }
    }
}

pub open spec fn points_view(v: Seq<BalancePoint>) -> Seq<(Seq<char>, int)> {
    v.map_values(|p: BalancePoint| (p.date@, p.balance as int))
}

pub open spec fn balances(h: Seq<(Seq<char>, int)>) -> Seq<int> {
    h.map_values(|p: (Seq<char>, int)| p.1)
}

pub open spec fn max_of(a: int, b: int) -> int {
    if a >= b {
        a
    } else {
        b
    }
}

/// Highest balance so far, at the last point.
pub open spec fn peak(s: Seq<int>) -> int
    decreases s.len(),
{
    if s.len() == 0 {
        0
    } else if s.len() == 1 {
        s[0]
    } else {
        max_of(peak(s.drop_last()), s.last())
    }
}

/// Largest fall from a running peak to a later balance; 0 for no history.
pub open spec fn max_drawdown(s: Seq<int>) -> int
    decreases s.len(),
{
    if s.len() == 0 {
        0
    } else {
        max_of(max_drawdown(s.drop_last()), peak(s) - s.last())
    }
}

pub open spec fn sum(s: Seq<int>) -> int
    decreases s.len(),
{
    if s.len() == 0 {
        0
    } else {
        sum(s.drop_last()) + s.last()
    }
}

pub open spec fn sum_squares(s: Seq<int>) -> int
    decreases s.len(),
{
    if s.len() == 0 {
        0
    } else {
        sum_squares(s.drop_last()) + s.last() * s.last()
    }
}

/// `n * Σb² - (Σb)²`: `n²` times the population variance.
pub open spec fn spread(s: Seq<int>) -> int {
    s.len() * sum_squares(s) - sum(s) * sum(s)
}

/// The exact figures of the variance fit in 128 bits.
pub open spec fn variance_fits(s: Seq<int>) -> bool {
    s.len() * sum_squares(s) <= i128::MAX && sum(s) * sum(s) <= i128::MAX
}

/// The balance never falls: the running peak is the last balance.
proof fn lemma_rising_peak(s: Seq<int>)
    requires
        forall|i: int, j: int| 0 <= i < j < s.len() ==> s[i] < s[j],
    ensures
        s.len() > 0 ==> peak(s) == s.last(),
    decreases s.len(),
{
    if s.len() > 1 {
        lemma_rising_peak(s.drop_last());
        assert(s.drop_last().last() == s[s.len() - 2]);
    }
}

/// For strictly increasing balances the drawdown is zero.
pub proof fn rising_balances_have_no_drawdown(s: Seq<int>)
    requires
        forall|i: int, j: int| 0 <= i < j < s.len() ==> s[i] < s[j],
    ensures
        max_drawdown(s) == 0,
    decreases s.len(),
{
    if s.len() > 0 {
        lemma_rising_peak(s);
        rising_balances_have_no_drawdown(s.drop_last());
    }
}

proof fn lemma_drawdown_nonnegative(s: Seq<int>)
    ensures
        max_drawdown(s) >= 0,
    decreases s.len(),
{
    if s.len() > 0 {
        lemma_drawdown_nonnegative(s.drop_last());
    }
}

proof fn lemma_flat_sums(s: Seq<int>, c: int)
    requires
        forall|i: int| 0 <= i < s.len() ==> s[i] == c,
    ensures
        sum(s) == s.len() * c,
        sum_squares(s) == s.len() * (c * c),
    decreases s.len(),
{
    if s.len() > 0 {
        lemma_flat_sums(s.drop_last(), c);
        assert(sum(s) == (s.len() - 1) * c + c);
        assert((s.len() - 1) * c + c == s.len() * c) by (nonlinear_arith);
        assert((s.len() - 1) * (c * c) + c * c == s.len() * (c * c)) by (nonlinear_arith);
    }
}

/// For a constant balance sequence the variance, hence the volatility, is
/// zero.
pub proof fn flat_balances_have_no_spread(s: Seq<int>)
    requires
        forall|i: int, j: int| 0 <= i < s.len() && 0 <= j < s.len() ==> s[i] == s[j],
    ensures
        spread(s) == 0,
        variance_of(s) matches Some(v) ==> v.num == 0,
{
    if s.len() > 0 {
        let c = s[0];
        lemma_flat_sums(s, c);
        let n = s.len() as int;
        assert(n * (n * (c * c)) - (n * c) * (n * c) == 0) by (nonlinear_arith);
    }
}

proof fn lemma_quiet_window(rows: Seq<DatedAmount>, since: Seq<char>)
    requires
        forall|i: int| 0 <= i < rows.len() && in_window(#[trigger] rows[i], since) ==> rows[i].amount >= 0,
    ensures
        expense_total(rows, since) == 0,
        expense_days(rows, since) == 0,
    decreases rows.len(),
{
    if rows.len() > 0 {
        lemma_quiet_window(rows.drop_last(), since);
        assert(rows.last() == rows[rows.len() - 1]);
    }
}

/// With no expense in the window the burn rate is zero and the runway and
/// the income tension are the unbounded stand-in.
pub proof fn quiet_window_sentinels(rows: Seq<DatedAmount>, since: Seq<char>)
    requires
        forall|i: int| 0 <= i < rows.len() && in_window(#[trigger] rows[i], since) ==> rows[i].amount >= 0,
    ensures
        burn_rate_of(rows, since) == (Ratio { num: 0, den: 1 }),
        runway_of(rows, since) == (Ratio { num: UNBOUNDED, den: 1 }),
        itt_of(rows, since) == (Ratio { num: UNBOUNDED, den: 1 }),
{
    lemma_quiet_window(rows, since);
}

/// Mean daily expense over the days with expenses; 0 without any.
pub open spec fn burn_rate_of(rows: Seq<DatedAmount>, since: Seq<char>) -> Ratio {
    if expense_days(rows, since) > 0 {
        Ratio { num: expense_total(rows, since) as i128, den: expense_days(rows, since) as i128 }
    } else {
        Ratio { num: 0, den: 1 }
    }
}

/// All-time balance over the burn rate, or the stand-in without expenses.
pub open spec fn runway_of(rows: Seq<DatedAmount>, since: Seq<char>) -> Ratio {
    if expense_total(rows, since) > 0 {
        Ratio {
            num: (total(rows) * expense_days(rows, since)) as i128,
            den: expense_total(rows, since) as i128,
        }
    } else {
        Ratio { num: UNBOUNDED, den: 1 }
    }
}

/// Income over expenses in the window, or the stand-in without expenses.
pub open spec fn itt_of(rows: Seq<DatedAmount>, since: Seq<char>) -> Ratio {
    if expense_total(rows, since) > 0 {
        Ratio { num: income_total(rows, since) as i128, den: expense_total(rows, since) as i128 }
    } else {
        Ratio { num: UNBOUNDED, den: 1 }
    }
}

/// The population variance as an exact quotient, when it fits.
pub open spec fn variance_of(s: Seq<int>) -> Option<Ratio> {
    if s.len() < 2 {
        Some(Ratio { num: 0, den: 1 })
    } else if variance_fits(s) {
        Some(Ratio { num: spread(s) as i128, den: (s.len() * s.len()) as i128 })
    } else {
        None
    }
}

/// Whether `date` falls on or after `since`.
pub fn on_or_after(date: &str, since: &str) -> (r: bool)
    ensures
        r == text_le(since@, date@),
{
    let a_len = since.unicode_len();
    let b_len = date.unicode_len();
    let mut i: usize = 0;
    assert(since@.skip(0) =~= since@);
    assert(date@.skip(0) =~= date@);
    while i < a_len && i < b_len
        invariant
            a_len == since@.len(),
            b_len == date@.len(),
            i <= a_len && i <= b_len,
            text_le(since@, date@) == text_le(since@.skip(i as int), date@.skip(i as int)),
        decreases a_len - i,
    {
        let a = since.get_char(i);
        let b = date.get_char(i);
        if a != b {
            return (a as u32) < (b as u32);
        }
        assert(since@.skip(i as int).drop_first() =~= since@.skip(i as int + 1));
        assert(date@.skip(i as int).drop_first() =~= date@.skip(i as int + 1));
        i = i + 1;
    }
    i == a_len
}

proof fn lemma_take_step<T>(s: Seq<T>, i: int)
    requires
        0 <= i < s.len(),
    ensures
        s.take(i + 1).drop_last() == s.take(i),
        s.take(i + 1).last() == s[i],
        s.take(i + 1).len() == i + 1,
{
    assert(s.take(i + 1).drop_last() =~= s.take(i));
}

/// Whether the rows are in date order, as the analytics require.
pub fn dates_in_order(rows: &Vec<DatedAmount>) -> (r: bool)
    ensures
        r == dates_ordered(rows@),
{
    let mut i: usize = 1;
    while i < rows.len()
        invariant
            1 <= i,
            forall|k: int| 0 < k < i && k < rows@.len() ==> text_le(rows@[k - 1].date@, #[trigger] rows@[k].date@),
        decreases rows@.len() - i,
    {
        if !on_or_after(rows[i].date.as_str(), rows[i - 1].date.as_str()) {
            return false;
        }
        i = i + 1;
    }
    true
}

/// Balance history of the rows dated on or after `since`. The rows are in
/// date order, so each point is one day.
pub fn balance_history_since(rows: &Vec<DatedAmount>, since: &str) -> (r: Vec<BalancePoint>)
    requires
        rows@.len() <= MAX_ROWS,
        dates_ordered(rows@),
    ensures
        points_view(r@) == history(rows@, since@),
        r@.len() <= rows@.len(),
        forall|k: int| 0 <= k < r@.len() ==> -BALANCE_LIMIT <= #[trigger] r@[k].balance <= BALANCE_LIMIT,
{
    let mut out: Vec<BalancePoint> = Vec::new();
    let mut cur_date = String::new();
    let mut cur_bal: i128 = 0;
    let mut has_cur = false;
    let mut i: usize = 0;
    while i < rows.len()
        invariant
            i <= rows@.len() <= MAX_ROWS,
            ({
                let h = history(rows@.take(i as int), since@);
                &&& h.len() == out@.len() + if has_cur { 1int } else { 0 }
                &&& h.len() <= i
                &&& !has_cur ==> out@.len() == 0
                &&& points_view(out@) =~= h.take(out@.len() as int)
                &&& has_cur ==> h.last() == (cur_date@, cur_bal as int)
                &&& forall|k: int|
                    0 <= k < h.len() ==> -(i as int) * 9223372036854775808 <= #[trigger] h[k].1
                        <= (i as int) * 9223372036854775808
            }),
        decreases rows@.len() - i,
    {
        let ghost h0 = history(rows@.take(i as int), since@);
        let ghost out0 = out@;
        proof {
            lemma_take_step(rows@, i as int);
        }
        let row = &rows[i];
        let ghost h1 = history(rows@.take(i as int + 1), since@);
        if on_or_after(row.date.as_str(), since) {
            if has_cur && row.date == cur_date {
                assert(h1 == h0.update(h0.len() - 1, (row.date@, h0.last().1 + row.amount)));
                cur_bal = cur_bal + row.amount as i128;
                assert(points_view(out@) =~= h1.take(out@.len() as int));
            } else {
                assert(h1 == h0.push((row.date@, last_balance(h0) + row.amount)));
                let prev: i128 = if has_cur {
                    cur_bal
                } else {
                    0
                };
                if has_cur {
                    out.push(BalancePoint { date: cur_date, balance: cur_bal });
                    assert(points_view(out@) =~= points_view(out0).push(h0.last()));
                    assert(h0 =~= h0.take(out0.len() as int).push(h0.last()));
                }
                assert(points_view(out@) =~= h1.take(out@.len() as int));
                cur_date = row.date.clone();
                cur_bal = prev + row.amount as i128;
                has_cur = true;
            }
        } else {
            assert(h1 == h0);
        }
        i = i + 1;
        proof {
            let h = history(rows@.take(i as int), since@);
            assert(h == h1);
            assert forall|k: int|
                0 <= k < h.len() implies -(i as int) * 9223372036854775808 <= #[trigger] h[k].1
                <= (i as int) * 9223372036854775808 by {
                if k < h0.len() && k != h0.len() - 1 {
                    assert(h[k] == h0[k]);
                } else if k == h0.len() - 1 {
                    assert(h0[k].1 == h0.last().1);
                }
            }
        }
    }
    let ghost out0 = out@;
    if has_cur {
        out.push(BalancePoint { date: cur_date, balance: cur_bal });
    }
    proof {
        assert(rows@.take(rows@.len() as int) =~= rows@);
        let h = history(rows@, since@);
        if has_cur {
            assert(points_view(out@) =~= points_view(out0).push(h.last()));
            assert(h =~= h.take(out0.len() as int).push(h.last()));
        }
        assert(points_view(out@) =~= h);
        assert forall|k: int| 0 <= k < out@.len() implies -BALANCE_LIMIT <= #[trigger] out@[k].balance
            <= BALANCE_LIMIT by {
            assert(points_view(out@)[k] == h[k]);
            let hb = history(rows@.take(i as int), since@);
            assert(hb == h);
            assert(-(i as int) * 9223372036854775808 <= hb[k].1 <= (i as int) * 9223372036854775808);
        }
    }
    out
}

pub open spec fn balance_seq(v: Seq<BalancePoint>) -> Seq<int> {
    v.map_values(|p: BalancePoint| p.balance as int)
}

pub open spec fn within_limit(v: Seq<BalancePoint>) -> bool {
    forall|k: int| 0 <= k < v.len() ==> -BALANCE_LIMIT <= #[trigger] v[k].balance <= BALANCE_LIMIT
}

/// The drawdown of the points, as a non-positive number.
pub fn calculate_max_drawdown(points: &Vec<BalancePoint>) -> (r: i128)
    requires
        within_limit(points@),
    ensures
        r == -max_drawdown(balance_seq(points@)),
        r <= 0,
{
    let ghost s = balance_seq(points@);
    if points.len() == 0 {
        return 0;
    }
    let mut top: i128 = points[0].balance;
    let mut worst: i128 = 0;
    let mut i: usize = 0;
    while i < points.len()
        invariant
            0 <= i <= points@.len(),
            points@.len() > 0,
            s == balance_seq(points@),
            within_limit(points@),
            i == 0 ==> top == s[0],
            i > 0 ==> top == peak(s.take(i as int)),
            -BALANCE_LIMIT <= top <= BALANCE_LIMIT,
            worst == max_drawdown(s.take(i as int)),
            0 <= worst <= 2 * BALANCE_LIMIT,
        decreases points@.len() - i,
    {
        proof {
            lemma_take_step(s, i as int);
            lemma_drawdown_nonnegative(s.take(i as int));
        }
        let b = points[i].balance;
        assert(s[i as int] == b);
        if b > top {
            top = b;
        }
        let fall = top - b;
        if fall > worst {
            worst = fall;
        }
        i = i + 1;
    }
    assert(s.take(points@.len() as int) =~= s);
    -worst
}

proof fn lemma_sum_squares_nonnegative(s: Seq<int>)
    ensures
        sum_squares(s) >= 0,
    decreases s.len(),
{
    if s.len() > 0 {
        lemma_sum_squares_nonnegative(s.drop_last());
        assert(s.last() * s.last() >= 0) by (nonlinear_arith);
    }
}

proof fn lemma_sum_squares_grows(s: Seq<int>, k: int)
    requires
        0 <= k <= s.len(),
    ensures
        sum_squares(s.take(k)) <= sum_squares(s),
    decreases s.len() - k,
{
    if k < s.len() {
        lemma_take_step(s, k);
        lemma_sum_squares_grows(s, k + 1);
        let x = s[k];
        assert(x * x >= 0) by (nonlinear_arith);
    } else {
        assert(s.take(k) =~= s);
    }
}

/// The population variance of the points' balances, as an exact quotient;
/// `None` when its figures do not fit in 128 bits.
pub fn calculate_volatility(points: &Vec<BalancePoint>) -> (r: Option<Ratio>)
    requires
        points@.len() <= MAX_ROWS,
        within_limit(points@),
    ensures
        r == variance_of(balance_seq(points@)),
{
    let ghost s = balance_seq(points@);
    let n = points.len();
    if n < 2 {
        return Some(Ratio { num: 0, den: 1 });
    }
    let mut total_b: i128 = 0;
    let mut total_sq: i128 = 0;
    let mut i: usize = 0;
    while i < n
        invariant
            0 <= i <= n,
            n == points@.len() <= MAX_ROWS,
            n >= 2,
            s.len() == n,
            s == balance_seq(points@),
            within_limit(points@),
            total_b == sum(s.take(i as int)),
            total_sq == sum_squares(s.take(i as int)),
            -(i as int) * BALANCE_LIMIT <= total_b <= (i as int) * BALANCE_LIMIT,
        decreases n - i,
    {
        proof {
            lemma_take_step(s, i as int);
            lemma_sum_squares_nonnegative(s.take(i as int));
        }
        let b = points[i].balance;
        assert(s[i as int] == b);
        let sq = match b.checked_mul(b) {
            Some(v) => v,
            None => {
                proof {
                    assert(b * b >= 0) by (nonlinear_arith);
                    assert(b * b > i128::MAX);
                    lemma_sum_squares_grows(s, i as int + 1);
                    lemma_sum_squares_nonnegative(s);
                    lemma_sum_squares_nonnegative(s.take(i as int));
                    assert(s.take(i as int + 1).last() == b);
                    assert(sum_squares(s.take(i as int + 1)) == total_sq + b * b);
                    assert(sum_squares(s) > i128::MAX);
                    assert(s.len() * sum_squares(s) >= sum_squares(s)) by (nonlinear_arith)
                        requires sum_squares(s) >= 0, s.len() >= 1;
                }
                return None;
            },
        };
        total_sq = match total_sq.checked_add(sq) {
            Some(v) => v,
            None => {
                proof {
                    lemma_sum_squares_grows(s, i as int + 1);
                    lemma_sum_squares_nonnegative(s);
                    assert(sum_squares(s.take(i as int + 1)) == total_sq + sq);
                    assert(s.len() * sum_squares(s) >= sum_squares(s)) by (nonlinear_arith)
                        requires sum_squares(s) >= 0, s.len() >= 1;
                }
                return None;
            },
        };
        total_b = total_b + b;
        i = i + 1;
    }
    assert(s.take(n as int) =~= s);
    assert(s.len() == n);
    proof {
        lemma_sum_squares_nonnegative(s);
        assert(n * total_sq >= 0) by (nonlinear_arith)
            requires n >= 0, total_sq >= 0;
        assert(total_b * total_b >= 0) by (nonlinear_arith);
    }
    let scaled = match (n as i128).checked_mul(total_sq) {
        Some(v) => v,
        None => {
            return None;
        },
    };
    let squared = match total_b.checked_mul(total_b) {
        Some(v) => v,
        None => {
            return None;
        },
    };
    proof {
        lemma_sum_squares_nonnegative(s);
        assert(total_b * total_b >= 0) by (nonlinear_arith);
        assert(n * total_sq >= 0) by (nonlinear_arith)
            requires n >= 0, total_sq >= 0;
    }
    assert(n * n <= 4294967295 * 4294967295) by (nonlinear_arith)
        requires 0 <= n <= 4294967295;
    let den = (n as i128) * (n as i128);
    Some(Ratio { num: scaled - squared, den })
}

proof fn lemma_seen_prefix(rows: Seq<DatedAmount>, i: int, since: Seq<char>)
    requires
        0 <= i < rows.len(),
    ensures
        expense_day_seen(rows.take(i + 1), i, since) == expense_day_seen(rows, i, since),
{
    if expense_day_seen(rows, i, since) {
        let j = choose|j: int|
            0 <= j < i && is_expense_in(#[trigger] rows[j], since) && rows[j].date@ == rows[i].date@;
        assert(rows.take(i + 1)[j] == rows[j]);
    }
    if expense_day_seen(rows.take(i + 1), i, since) {
        let j = choose|j: int|
            0 <= j < i && is_expense_in(#[trigger] rows.take(i + 1)[j], since) && rows.take(i + 1)[j].date@
                == rows.take(i + 1)[i].date@;
        assert(rows.take(i + 1)[j] == rows[j]);
    }
}

fn day_already_counted(rows: &Vec<DatedAmount>, i: usize, since: &str) -> (r: bool)
    requires
        i < rows@.len(),
    ensures
        r == expense_day_seen(rows@, i as int, since@),
{
    let mut j: usize = 0;
    while j < i
        invariant
            j <= i < rows@.len(),
            forall|k: int|
                0 <= k < j ==> !(is_expense_in(#[trigger] rows@[k], since@) && rows@[k].date@
                    == rows@[i as int].date@),
        decreases i - j,
    {
        if rows[j].amount < 0 && on_or_after(rows[j].date.as_str(), since) && rows[j].date
            == rows[i].date {
            return true;
        }
        j = j + 1;
    }
    false
}

/// The figures of the ledger, with `month_start` opening the burn-rate,
/// income-tension and volatility window and `quarter_start` the drawdown
/// window.
pub fn financial_metrics_since(rows: &Vec<DatedAmount>, month_start: &str, quarter_start: &str) -> (r:
    FinancialMetrics)
    requires
        rows@.len() <= MAX_ROWS,
        dates_ordered(rows@),
    ensures
        r.balance == total(rows@),
        r.burn_rate == burn_rate_of(rows@, month_start@),
        r.runway == runway_of(rows@, month_start@),
        r.itt == itt_of(rows@, month_start@),
        r.volatility == variance_of(balances(history(rows@, month_start@))),
        r.drawdown == -max_drawdown(balances(history(rows@, quarter_start@))),
        r.drawdown <= 0,
{
    let mut bal: i128 = 0;
    let mut spent: i128 = 0;
    let mut earned: i128 = 0;
    let mut days: i128 = 0;
    let mut i: usize = 0;
    while i < rows.len()
        invariant
            0 <= i <= rows@.len() <= MAX_ROWS,
            bal == total(rows@.take(i as int)),
            spent == expense_total(rows@.take(i as int), month_start@),
            earned == income_total(rows@.take(i as int), month_start@),
            days == expense_days(rows@.take(i as int), month_start@),
            -(i as int) * 9223372036854775808 <= bal <= (i as int) * 9223372036854775808,
            0 <= spent <= (i as int) * 9223372036854775808,
            0 <= earned <= (i as int) * 9223372036854775808,
            0 <= days <= i,
            days > 0 ==> spent > 0,
        decreases rows@.len() - i,
    {
        proof {
            lemma_take_step(rows@, i as int);
            lemma_seen_prefix(rows@, i as int, month_start@);
        }
        let row = &rows[i];
        let amount = row.amount;
        let inside = on_or_after(row.date.as_str(), month_start);
        bal = bal + amount as i128;
        if inside && amount < 0 {
            let seen = day_already_counted(rows, i, month_start);
            spent = spent - amount as i128;
            if !seen {
                days = days + 1;
            }
        }
        if inside && amount > 0 {
            earned = earned + amount as i128;
        }
        i = i + 1;
    }
    assert(rows@.take(rows@.len() as int) =~= rows@);
    let burn_rate = if days > 0 {
        Ratio { num: spent, den: days }
    } else {
        Ratio { num: 0, den: 1 }
    };
    let (runway, itt) = if spent > 0 {
        assert(-39614081257132168796771975168 * 4294967295 <= bal * days <= 39614081257132168796771975168
            * 4294967295) by (nonlinear_arith)
            requires
                -39614081257132168796771975168 <= bal <= 39614081257132168796771975168,
                0 <= days <= 4294967295,
        ;
        (Ratio { num: bal * days, den: spent }, Ratio { num: earned, den: spent })
    } else {
        (Ratio { num: UNBOUNDED, den: 1 }, Ratio { num: UNBOUNDED, den: 1 })
    };
    let month = balance_history_since(rows, month_start);
    let quarter = balance_history_since(rows, quarter_start);
    assert(balance_seq(month@) =~= balances(points_view(month@)));
    assert(balance_seq(quarter@) =~= balances(points_view(quarter@)));
    let volatility = calculate_volatility(&month);
    let drawdown = calculate_max_drawdown(&quarter);
    FinancialMetrics { balance: bal, burn_rate, runway, itt, volatility, drawdown }
}

impl DatabaseManager {
    /// Balance history of the last `days` days up to `today` (YYYY-MM-DD).
    pub fn get_balance_history(&self, rows: &Vec<DatedAmount>, today: &str, days: u64) -> (r: Result<
        Vec<BalancePoint>,
        LedgerError,
    >)
        requires
            rows@.len() <= MAX_ROWS,
            dates_ordered(rows@),
        ensures
            match iso_date_before(today@, days as int) {
                Some(since) => r matches Ok(v) && points_view(v@) == history(rows@, since),
                None => r == Err::<Vec<BalancePoint>, LedgerError>(LedgerError::InvalidDate),
            },
    {
        match date_before(today, days) {
            Some(since) => Ok(balance_history_since(rows, since.as_str())),
            None => Err(LedgerError::InvalidDate),
        }
    }

    /// The figures of the ledger as of `today` (YYYY-MM-DD).
    pub fn get_financial_metrics(&self, rows: &Vec<DatedAmount>, today: &str) -> (r: Result<
        FinancialMetrics,
        LedgerError,
    >)
        requires
            rows@.len() <= MAX_ROWS,
            dates_ordered(rows@),
        ensures
            match (iso_date_before(today@, MONTH_DAYS as int), iso_date_before(today@, QUARTER_DAYS as int)) {
                (Some(m), Some(q)) => r matches Ok(f) && {
                    &&& f.balance == total(rows@)
                    &&& f.burn_rate == burn_rate_of(rows@, m)
                    &&& f.runway == runway_of(rows@, m)
                    &&& f.itt == itt_of(rows@, m)
                    &&& f.volatility == variance_of(balances(history(rows@, m)))
                    &&& f.drawdown == -max_drawdown(balances(history(rows@, q)))
                },
                _ => r == Err::<FinancialMetrics, LedgerError>(LedgerError::InvalidDate),
            },
    {
        let month = match date_before(today, MONTH_DAYS) {
            Some(d) => d,
            None => {
                return Err(LedgerError::InvalidDate);
            },
        };
        let quarter = match date_before(today, QUARTER_DAYS) {
            Some(d) => d,
            None => {
                return Err(LedgerError::InvalidDate);
            },
        };
        Ok(financial_metrics_since(rows, month.as_str(), quarter.as_str()))
    }
}

} // verus!
