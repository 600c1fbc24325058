//! Daily revenue buckets for charting: the revenue of each UTC calendar day
//! that has a sale, in ascending order of the date text.

use crate::aggregate::total_revenue;
use crate::records::Sale;
use vstd::prelude::*;
use vstd::string::*;

verus! {

/// One day of the chart.
#[derive(Clone, Debug, PartialEq, Eq)]
pub struct ChartPoint {
    /// The calendar date, such as `2024-03-01`.
    pub date: String,
    /// The revenue of that day in cents.
    pub revenue_cents: u128,
}

/// An amount taken on a calendar day.
#[derive(Clone, Debug, PartialEq, Eq)]
pub struct DayAmount {
    /// The calendar date, such as `2024-03-01`.
    pub date: String,
    /// The amount in cents.
    pub cents: u64,
}

/// An amount taken on a calendar day, as contracts speak of it.
pub struct Dated {
    pub date: Seq<char>,
    pub cents: nat,
}

impl View for DayAmount {
    type V = Dated;

    open spec fn view(&self) -> Dated {
        Dated { date: self.date@, cents: self.cents as nat }
    }
}

/// The amounts of a list as contracts speak of them.
pub open spec fn dated_amounts(entries: Seq<DayAmount>) -> Seq<Dated> {
    entries.map_values(|e: DayAmount| e@)
}

/// The total of each sale on the UTC calendar day on which it was made.
pub open spec fn dated_sales(sales: Seq<Sale>) -> Seq<Dated> {
    sales.map_values(
        |s: Sale| Dated { date: s.created_at.date_text(), cents: s.total_cents as nat },
    )
}

/// How one text stands to another in lexicographic order.
#[derive(Clone, Copy, Debug, PartialEq, Eq)]
pub enum TextOrder {
    Before,
    Same,
    After,
}

/// Whether `a` comes before `b`, given that they agree on their first `k`
/// characters: at the first difference from there on the smaller character
/// decides, and a text comes before its own extensions.
pub open spec fn text_before_from(a: Seq<char>, b: Seq<char>, k: int) -> bool
    decreases a.len() - k,
{
    if k < 0 || k >= b.len() {
        false
    } else if k >= a.len() {
        true
    } else if a[k] != b[k] {
        (a[k] as u32) < (b[k] as u32)
    } else {
        text_before_from(a, b, k + 1)
    }
}

/// Whether `a` comes strictly before `b` in lexicographic order of characters.
pub open spec fn text_before(a: Seq<char>, b: Seq<char>) -> bool {
    text_before_from(a, b, 0)
}

/// The order is transitive.
pub proof fn lemma_text_before_transitive(a: Seq<char>, b: Seq<char>, c: Seq<char>, k: int)
    requires
        k >= 0,
        text_before_from(a, b, k),
        text_before_from(b, c, k),
    ensures
        text_before_from(a, c, k),
    decreases a.len() - k,
{
    if k < a.len() && a[k] == b[k] && b[k] == c[k] {
        lemma_text_before_transitive(a, b, c, k + 1);
    }
}

/// No text comes before itself.
pub proof fn lemma_text_before_irreflexive(a: Seq<char>, k: int)
    requires
        k >= 0,
    ensures
        !text_before_from(a, a, k),
    decreases a.len() - k,
{
    if k < a.len() {
        lemma_text_before_irreflexive(a, k + 1);
    }
}

/// The sum of all amounts, in cents.
pub open spec fn total_cents(entries: Seq<Dated>) -> nat
    decreases entries.len(),
{
    if entries.len() == 0 {
        0
    } else {
        total_cents(entries.drop_last()) + entries.last().cents
    }
}

/// The sum of the amounts taken on the calendar day `date`, in cents.
pub open spec fn revenue_on(entries: Seq<Dated>, date: Seq<char>) -> nat
    decreases entries.len(),
{
    if entries.len() == 0 {
        0
    } else {
        revenue_on(entries.drop_last(), date) + if entries.last().date == date {
            entries.last().cents
        } else {
            0
        }
    }
}

/// Whether some amount was taken on the calendar day `date`.
pub open spec fn has_entry_on(entries: Seq<Dated>, date: Seq<char>) -> bool {
    exists|i: int| 0 <= i < entries.len() && (#[trigger] entries[i]).date == date
}

/// Whether some point of the chart stands for the calendar day `date`.
pub open spec fn has_point_on(points: Seq<ChartPoint>, date: Seq<char>) -> bool {
    exists|k: int| 0 <= k < points.len() && #[trigger] points[k].date@ == date
}

/// The dates ascend strictly from point to point.
pub open spec fn dates_ascend(points: Seq<ChartPoint>) -> bool {
    forall|i: int, j: int|
        0 <= i < j < points.len() ==> text_before(
            #[trigger] points[i].date@,
            #[trigger] points[j].date@,
        )
}

/// The sum of the revenue of all points, in cents.
pub open spec fn buckets_total(points: Seq<ChartPoint>) -> nat
    decreases points.len(),
{
    if points.len() == 0 {
        0
    } else {
        buckets_total(points.drop_last()) + points.last().revenue_cents as nat
    }
}

/// `points` is the chart of `entries`: one point for each day that has an
/// amount and for no other day, each with the sum of the amounts of its day,
/// in ascending order of the date text.
pub open spec fn is_chart_of(points: Seq<ChartPoint>, entries: Seq<Dated>) -> bool {
    &&& dates_ascend(points)
    &&& forall|k: int|
        0 <= k < points.len() ==> has_entry_on(entries, #[trigger] points[k].date@)
            && points[k].revenue_cents == revenue_on(entries, points[k].date@)
    &&& forall|i: int|
        0 <= i < entries.len() ==> has_point_on(points, (#[trigger] entries[i]).date)
}

/// One more amount adds to the total.
pub proof fn lemma_total_push(entries: Seq<Dated>, entry: Dated)
    ensures
        total_cents(entries.push(entry)) == total_cents(entries) + entry.cents,
{
    assert(entries.push(entry).drop_last() =~= entries);
}

/// No amount of a list adds more than the largest amount that one can hold.
pub proof fn lemma_total_bounded(entries: Seq<DayAmount>)
    ensures
        total_cents(dated_amounts(entries)) <= entries.len() * u64::MAX,
    decreases entries.len(),
{
    if entries.len() > 0 {
        lemma_total_bounded(entries.drop_last());
        assert(dated_amounts(entries).drop_last() =~= dated_amounts(entries.drop_last()));
        assert((entries.len() - 1) * u64::MAX + u64::MAX == entries.len() * u64::MAX)
            by (nonlinear_arith);
    }
}

/// The dated totals of sales add up to the revenue of the sales.
pub proof fn lemma_dated_sales_total(sales: Seq<Sale>)
    ensures
        total_cents(dated_sales(sales)) == total_revenue(sales),
    decreases sales.len(),
{
    if sales.len() > 0 {
        lemma_dated_sales_total(sales.drop_last());
        assert(dated_sales(sales).drop_last() =~= dated_sales(sales.drop_last()));
    }
}

/// One more amount adds to the revenue of its own day only.
pub proof fn lemma_revenue_on_push(entries: Seq<Dated>, entry: Dated, date: Seq<char>)
    ensures
        revenue_on(entries.push(entry), date) == revenue_on(entries, date) + if entry.date == date {
            entry.cents
        } else {
            0
        },
{
    assert(entries.push(entry).drop_last() =~= entries);
}

/// A day without an amount has no revenue.
pub proof fn lemma_revenue_on_absent(entries: Seq<Dated>, date: Seq<char>)
    requires
        !has_entry_on(entries, date),
    ensures
        revenue_on(entries, date) == 0,
    decreases entries.len(),
{
    if entries.len() > 0 {
        let rest = entries.drop_last();
        assert(entries.last() == entries[entries.len() - 1]);
        assert(!has_entry_on(rest, date)) by {
            if has_entry_on(rest, date) {
                let i = choose|i: int| 0 <= i < rest.len() && (#[trigger] rest[i]).date == date;
                assert(entries[i].date == date);
            }
        }
        lemma_revenue_on_absent(rest, date);
    }
}

/// Replacing one point changes the total by the difference of the two revenues.
pub proof fn lemma_total_update(points: Seq<ChartPoint>, k: int, point: ChartPoint)
    requires
        0 <= k < points.len(),
    ensures
        buckets_total(points.update(k, point)) + points[k].revenue_cents == buckets_total(points)
            + point.revenue_cents,
    decreases points.len(),
{
    let changed = points.update(k, point);
    if k == points.len() - 1 {
        assert(changed.drop_last() =~= points.drop_last());
    } else {
        assert(changed.drop_last() =~= points.drop_last().update(k, point));
        lemma_total_update(points.drop_last(), k, point);
    }
}

/// A point put in adds its revenue to the total.
pub proof fn lemma_total_insert(points: Seq<ChartPoint>, k: int, point: ChartPoint)
    requires
        0 <= k <= points.len(),
    ensures
        buckets_total(points.insert(k, point)) == buckets_total(points) + point.revenue_cents,
    decreases points.len(),
{
    let grown = points.insert(k, point);
    if k == points.len() {
        assert(grown.drop_last() =~= points);
    } else {
        assert(grown.drop_last() =~= points.drop_last().insert(k, point));
        assert(grown.last() == points.last());
        lemma_total_insert(points.drop_last(), k, point);
    }
}

/// No point holds more than the total.
pub proof fn lemma_point_within_total(points: Seq<ChartPoint>, k: int)
    requires
        0 <= k < points.len(),
    ensures
        points[k].revenue_cents <= buckets_total(points),
    decreases points.len(),
{
    if k < points.len() - 1 {
        lemma_point_within_total(points.drop_last(), k);
    }
}

/// The revenue that the amounts bring to the days of the points, day by day.
pub open spec fn days_revenue(points: Seq<ChartPoint>, entries: Seq<Dated>) -> nat
    decreases points.len(),
{
    if points.len() == 0 {
        0
    } else {
        days_revenue(points.drop_last(), entries) + revenue_on(entries, points.last().date@)
    }
}

/// No two points stand for the same day.
pub open spec fn dates_differ(points: Seq<ChartPoint>) -> bool {
    forall|i: int, j: int|
        0 <= i < j < points.len() ==> (#[trigger] points[i]).date@ != (#[trigger] points[j]).date@
}

/// Dates that ascend strictly differ.
pub proof fn lemma_ascending_dates_differ(points: Seq<ChartPoint>)
    requires
        dates_ascend(points),
    ensures
        dates_differ(points),
{
    assert forall|i: int, j: int| 0 <= i < j < points.len() implies (#[trigger] points[i]).date@ != (
    #[trigger] points[j]).date@ by {
        assert(text_before(points[i].date@, points[j].date@));
        lemma_text_before_irreflexive(points[i].date@, 0);
    }
}

/// One more amount adds to the days of the points once, if one of them is
/// its day, and not at all otherwise.
pub proof fn lemma_days_revenue_push(points: Seq<ChartPoint>, entries: Seq<Dated>, entry: Dated)
    requires
        dates_differ(points),
    ensures
        days_revenue(points, entries.push(entry)) == days_revenue(points, entries) + if has_point_on(
            points,
            entry.date,
        ) {
            entry.cents
        } else {
            0
        },
    decreases points.len(),
{
    let date = entry.date;
    if points.len() > 0 {
        let rest = points.drop_last();
        let last = points.last();
        assert(last == points[points.len() - 1]);
        assert forall|i: int, j: int| 0 <= i < j < rest.len() implies (#[trigger] rest[i]).date@ != (
        #[trigger] rest[j]).date@ by {
            assert(rest[i] == points[i]);
            assert(rest[j] == points[j]);
        }
        lemma_days_revenue_push(rest, entries, entry);
        lemma_revenue_on_push(entries, entry, last.date@);
        if has_point_on(rest, date) {
            let k = choose|k: int| 0 <= k < rest.len() && #[trigger] rest[k].date@ == date;
            assert(points[k] == rest[k]);
            assert(points[k].date@ == date);
            assert(last.date@ != date);
        } else if last.date@ != date {
            assert(!has_point_on(points, date)) by {
                if has_point_on(points, date) {
                    let k = choose|k: int|
                        0 <= k < points.len() && #[trigger] points[k].date@ == date;
                    assert(rest[k] == points[k]);
                    assert(rest[k].date@ == date);
                }
            }
        } else {
            assert(points[points.len() - 1].date@ == date);
        }
    } else {
        assert(!has_point_on(points, date));
    }
}

/// Points whose days differ and cover the days of all amounts hold, between
/// them, the total of all amounts.
pub proof fn lemma_days_cover_revenue(points: Seq<ChartPoint>, entries: Seq<Dated>)
    requires
        dates_differ(points),
        forall|i: int|
            0 <= i < entries.len() ==> has_point_on(points, (#[trigger] entries[i]).date),
    ensures
        days_revenue(points, entries) == total_cents(entries),
    decreases entries.len(), points.len(),
{
    if entries.len() == 0 {
        if points.len() > 0 {
            let rest = points.drop_last();
            assert forall|i: int, j: int| 0 <= i < j < rest.len() implies (
            #[trigger] rest[i]).date@ != (#[trigger] rest[j]).date@ by {
                assert(rest[i] == points[i]);
                assert(rest[j] == points[j]);
            }
            lemma_days_cover_revenue(rest, entries);
        }
    } else {
        let rest = entries.drop_last();
        let last = entries.last();
        assert(entries =~= rest.push(last));
        assert forall|i: int| 0 <= i < rest.len() implies has_point_on(
            points,
            (#[trigger] rest[i]).date,
        ) by {
            assert(rest[i] == entries[i]);
        }
        lemma_days_cover_revenue(points, rest);
        lemma_days_revenue_push(points, rest, last);
        assert(entries[entries.len() - 1] == last);
        assert(has_point_on(points, entries[entries.len() - 1].date));
    }
}

/// Where each point holds the revenue of its day, the total of the points is
/// the revenue of their days.
pub proof fn lemma_buckets_are_days_revenue(points: Seq<ChartPoint>, entries: Seq<Dated>)
    requires
        forall|k: int|
            0 <= k < points.len() ==> (#[trigger] points[k]).revenue_cents == revenue_on(
                entries,
                points[k].date@,
            ),
    ensures
        buckets_total(points) == days_revenue(points, entries),
    decreases points.len(),
{
    if points.len() > 0 {
        let rest = points.drop_last();
        assert forall|k: int| 0 <= k < rest.len() implies (#[trigger] rest[k]).revenue_cents
            == revenue_on(entries, rest[k].date@) by {
            assert(rest[k] == points[k]);
        }
        lemma_buckets_are_days_revenue(rest, entries);
        assert(points.last() == points[points.len() - 1]);
    }
}

/// The days of a chart share out what was taken: whatever the amounts, the
/// revenue of the points adds up to their total.
pub proof fn law_chart_partitions_revenue(points: Seq<ChartPoint>, entries: Seq<Dated>)
    requires
        is_chart_of(points, entries),
    ensures
        buckets_total(points) == total_cents(entries),
{
    lemma_ascending_dates_differ(points);
    lemma_buckets_are_days_revenue(points, entries);
    lemma_days_cover_revenue(points, entries);
}

/// The days of the chart of a set of sales add up to the revenue of the sales.
pub proof fn law_sales_chart_partitions_revenue(points: Seq<ChartPoint>, sales: Seq<Sale>)
    requires
        is_chart_of(points, dated_sales(sales)),
    ensures
        buckets_total(points) == total_revenue(sales),
{
    law_chart_partitions_revenue(points, dated_sales(sales));
    lemma_dated_sales_total(sales);
}

/// The chart of nothing has no point.
pub proof fn law_empty_chart(points: Seq<ChartPoint>, entries: Seq<Dated>)
    requires
        is_chart_of(points, entries),
        entries.len() == 0,
    ensures
        points.len() == 0,
{
    if points.len() > 0 {
        assert(has_entry_on(entries, points[0].date@));
    }
}

/// Compares two texts character by character.
pub fn order_texts(a: &str, b: &str) -> (r: TextOrder)
    ensures
        (r is Before) == text_before(a@, b@),
        (r is Same) == (a@ == b@),
        (r is After) == text_before(b@, a@),
{
    let la: usize = a.unicode_len();
    let lb: usize = b.unicode_len();
    let mut k: usize = 0;
    while k < la && k < lb
        invariant
            la == a@.len(),
            lb == b@.len(),
            k <= la,
            k <= lb,
            forall|j: int| 0 <= j < k ==> a@[j] == b@[j],
            text_before(a@, b@) == text_before_from(a@, b@, k as int),
            text_before(b@, a@) == text_before_from(b@, a@, k as int),
        decreases la - k,
    {
        let ca: char = a.get_char(k);
        let cb: char = b.get_char(k);
        if ca != cb {
            if (ca as u32) < (cb as u32) {
                return TextOrder::Before;
            } else {
                return TextOrder::After;
            }
        }
        k = k + 1;
    }
    if la == lb {
        assert(a@ =~= b@);
        TextOrder::Same
    } else if k == la {
        TextOrder::Before
    } else {
        TextOrder::After
    }
}

/// What crediting an amount to a day does to a chart: `after` is `before`
/// with `amount` credited to the day `date` at index `slot`, on a point that
/// was there (`merged`) or on a new one.
pub open spec fn credited(
    before: Seq<ChartPoint>,
    after: Seq<ChartPoint>,
    date: Seq<char>,
    amount: nat,
    slot: int,
    merged: bool,
) -> bool {
    &&& 0 <= slot < after.len()
    &&& after[slot].date@ == date
    &&& merged ==> {
        &&& after.len() == before.len()
        &&& before[slot].date@ == date
        &&& after[slot].revenue_cents == before[slot].revenue_cents + amount
        &&& forall|k: int| 0 <= k < before.len() && k != slot ==> after[k] == before[k]
    }
    &&& !merged ==> {
        &&& after.len() == before.len() + 1
        &&& !has_point_on(before, date)
        &&& after[slot].revenue_cents == amount
        &&& forall|k: int| 0 <= k < slot ==> after[k] == before[k]
        &&& forall|k: int| slot <= k < before.len() ==> after[k + 1] == before[k]
    }
}

/// Adds `amount` to the point of the day `date`, or puts a point for that day
/// in its place in the order where the chart has none. Returns where the
/// point stands and whether it was there before.
pub(crate) fn credit_day(points: &mut Vec<ChartPoint>, date: String, amount: u64) -> (r: (
    usize,
    bool,
))
    requires
        dates_ascend(old(points)@),
        buckets_total(old(points)@) + amount <= u128::MAX,
    ensures
        dates_ascend(final(points)@),
        buckets_total(final(points)@) == buckets_total(old(points)@) + amount,
        credited(old(points)@, final(points)@, date@, amount as nat, r.0 as int, r.1),
{
    let ghost before = points@;
    let mut j: usize = 0;
    while j < points.len()
        invariant
            points@ == before,
            before == old(points)@,
            j <= before.len(),
            dates_ascend(before),
            buckets_total(before) + amount <= u128::MAX,
            forall|k: int| 0 <= k < j ==> text_before(#[trigger] before[k].date@, date@),
        decreases before.len() - j,
    {
        match order_texts(points[j].date.as_str(), date.as_str()) {
            TextOrder::Before => {
                j = j + 1;
            },
            TextOrder::Same => {
                proof {
                    lemma_point_within_total(before, j as int);
                }
                let sum: u128 = points[j].revenue_cents + amount as u128;
                let point = ChartPoint { date, revenue_cents: sum };
                proof {
                    lemma_total_update(before, j as int, point);
                }
                points.set(j, point);
                assert(dates_ascend(points@)) by {
                    assert forall|x: int, y: int| 0 <= x < y < points@.len() implies text_before(
                        #[trigger] points@[x].date@,
                        #[trigger] points@[y].date@,
                    ) by {
                        assert(points@[x].date@ == before[x].date@);
                        assert(points@[y].date@ == before[y].date@);
                    }
                }
                return (j, true);
            },
            TextOrder::After => {
                let point = ChartPoint { date, revenue_cents: amount as u128 };
                proof {
                    lemma_total_insert(before, j as int, point);
                    assert(!has_point_on(before, point.date@)) by {
                        if has_point_on(before, point.date@) {
                            let k = choose|k: int|
                                0 <= k < before.len() && #[trigger] before[k].date@ == point.date@;
                            lemma_text_before_irreflexive(point.date@, 0);
                            if k > j {
                                lemma_text_before_transitive(
                                    point.date@,
                                    before[j as int].date@,
                                    before[k].date@,
                                    0,
                                );
                            }
                        }
                    }
                }
                points.insert(j, point);
                assert(dates_ascend(points@)) by {
                    assert forall|x: int, y: int| 0 <= x < y < points@.len() implies text_before(
                        #[trigger] points@[x].date@,
                        #[trigger] points@[y].date@,
                    ) by {
                        if y == j {
                            assert(points@[x] == before[x]);
                        } else if x == j {
                            assert(points@[y] == before[y - 1]);
                            if y - 1 > j {
                                lemma_text_before_transitive(
                                    point.date@,
                                    before[j as int].date@,
                                    before[y - 1].date@,
                                    0,
                                );
                            }
                        } else {
                            let ox = if x < j { x } else { x - 1 };
                            let oy = if y < j { y } else { y - 1 };
                            assert(points@[x] == before[ox]);
                            assert(points@[y] == before[oy]);
                        }
                    }
                }
                return (j, false);
            },
        }
    }
    let point = ChartPoint { date, revenue_cents: amount as u128 };
    proof {
        lemma_total_insert(before, j as int, point);
        assert(!has_point_on(before, point.date@)) by {
            if has_point_on(before, point.date@) {
                let k = choose|k: int|
                    0 <= k < before.len() && #[trigger] before[k].date@ == point.date@;
                lemma_text_before_irreflexive(point.date@, 0);
            }
        }
        assert(before.insert(j as int, point) =~= before.push(point));
    }
    points.push(point);
    (j, false)
}

/// Crediting one more amount to the chart of the amounts so far gives the
/// chart of the amounts with that one added.
pub proof fn lemma_chart_step(
    before: Seq<ChartPoint>,
    after: Seq<ChartPoint>,
    entries: Seq<Dated>,
    entry: Dated,
    slot: int,
    merged: bool,
)
    requires
        is_chart_of(before, entries),
        dates_ascend(after),
        credited(before, after, entry.date, entry.cents, slot, merged),
    ensures
        is_chart_of(after, entries.push(entry)),
{
    let date = entry.date;
    let grown = entries.push(entry);
    assert(grown[entries.len() as int] == entry);
    assert(has_entry_on(grown, date)) by {
        assert(grown[entries.len() as int].date == date);
    }
    assert forall|i: int| 0 <= i < entries.len() implies grown[i] == entries[i] by {}
    if !merged {
        assert(!has_entry_on(entries, date)) by {
            if has_entry_on(entries, date) {
                let i = choose|i: int|
                    0 <= i < entries.len() && (#[trigger] entries[i]).date == date;
                assert(has_point_on(before, entries[i].date));
            }
        }
        lemma_revenue_on_absent(entries, date);
    }
    assert forall|k: int| 0 <= k < after.len() implies has_entry_on(
        grown,
        #[trigger] after[k].date@,
    ) && after[k].revenue_cents == revenue_on(grown, after[k].date@) by {
        lemma_revenue_on_push(entries, entry, after[k].date@);
        if k != slot {
            let o = if merged || k < slot {
                k
            } else {
                k - 1
            };
            assert(after[k] == before[o]);
            assert(before[o].date@ != date) by {
                if before[o].date@ == date {
                    if merged {
                        lemma_text_before_irreflexive(date, 0);
                        if o < slot {
                            assert(text_before(before[o].date@, before[slot].date@));
                        } else {
                            assert(text_before(before[slot].date@, before[o].date@));
                        }
                    } else {
                        assert(has_point_on(before, date));
                    }
                }
            }
            assert(has_entry_on(entries, before[o].date@));
            let i = choose|i: int|
                0 <= i < entries.len() && (#[trigger] entries[i]).date == before[o].date@;
            assert(grown[i].date == after[k].date@);
        } else {
            if merged {
                assert(before[slot].revenue_cents == revenue_on(entries, before[slot].date@));
            }
        }
    }
    assert forall|i: int| 0 <= i < grown.len() implies has_point_on(
        after,
        (#[trigger] grown[i]).date,
    ) by {
        if i == entries.len() {
            assert(after[slot].date@ == date);
        } else {
            let wanted = entries[i].date;
            assert(has_point_on(before, wanted));
            let k = choose|k: int| 0 <= k < before.len() && #[trigger] before[k].date@ == wanted;
            let n = if merged || k < slot {
                k
            } else {
                k + 1
            };
            if merged && k == slot {
                assert(after[n].date@ == wanted);
            } else {
                assert(after[n] == before[k]);
                assert(after[n].date@ == wanted);
            }
        }
    }
}

/// Groups amounts by their calendar day: one point for each day that occurs,
/// with the sum of the amounts of that day, in ascending order of the date
/// text. The points add up to the total of the amounts.
pub fn bucket_by_date(entries: &Vec<DayAmount>) -> (points: Vec<ChartPoint>)
    ensures
        is_chart_of(points@, dated_amounts(entries@)),
        buckets_total(points@) == total_cents(dated_amounts(entries@)),
        entries@.len() == 0 ==> points@.len() == 0,
{
    let mut points: Vec<ChartPoint> = Vec::new();
    let mut i: usize = 0;
    assert(dated_amounts(entries@.take(0)) =~= Seq::<Dated>::empty());
    while i < entries.len()
        invariant
            i <= entries@.len(),
            is_chart_of(points@, dated_amounts(entries@.take(i as int))),
            buckets_total(points@) == total_cents(dated_amounts(entries@.take(i as int))),
            i == 0 ==> points@.len() == 0,
        decreases entries@.len() - i,
    {
        let entry = &entries[i];
        let ghost prefix = entries@.take(i as int);
        let ghost before = points@;
        proof {
            assert(entries@.take(i + 1) =~= prefix.push(*entry));
            assert(dated_amounts(prefix.push(*entry)) =~= dated_amounts(prefix).push(entry@));
            lemma_total_push(dated_amounts(prefix), entry@);
            lemma_total_bounded(prefix.push(*entry));
            assert((i + 1) * u64::MAX <= usize::MAX * u64::MAX) by (nonlinear_arith)
                requires
                    i + 1 <= usize::MAX,
            ;
        }
        let slot = credit_day(&mut points, entry.date.clone(), entry.cents);
        proof {
            lemma_chart_step(before, points@, dated_amounts(prefix), entry@, slot.0 as int, slot.1);
        }
        i = i + 1;
    }
    assert(entries@.take(entries@.len() as int) =~= entries@);
    points
}

/// The total of each sale with the UTC calendar day on which it was made, in
/// the order of the sales.
pub fn day_amounts(sales: &Vec<Sale>) -> (days: Vec<DayAmount>)
    ensures
        dated_amounts(days@) == dated_sales(sales@),
{
    let mut days: Vec<DayAmount> = Vec::new();
    let mut i: usize = 0;
    assert(dated_amounts(days@) =~= dated_sales(sales@.take(0)));
    while i < sales.len()
        invariant
            i <= sales@.len(),
            dated_amounts(days@) == dated_sales(sales@.take(i as int)),
        decreases sales@.len() - i,
    {
        let sale = &sales[i];
        let ghost before = days@;
        days.push(DayAmount { date: sale.created_at.date_label(), cents: sale.total_cents });
        proof {
            assert(sales@.take(i + 1) =~= sales@.take(i as int).push(*sale));
            assert(dated_amounts(days@) =~= dated_amounts(before).push(days@[i as int]@));
            assert(dated_sales(sales@.take(i + 1)) =~= dated_sales(sales@.take(i as int)).push(
                days@[i as int]@,
            ));
        }
        i = i + 1;
    }
    assert(sales@.take(sales@.len() as int) =~= sales@);
    days
}

/// The revenue of each UTC calendar day that has a sale, in ascending order of
/// the date text. The days of the chart share out the revenue of the sales:
/// their sum is the total. No sale, no point.
pub fn chart_buckets(sales: &Vec<Sale>) -> (points: Vec<ChartPoint>)
    ensures
        is_chart_of(points@, dated_sales(sales@)),
        buckets_total(points@) == total_revenue(sales@),
        sales@.len() == 0 ==> points@.len() == 0,
{
    let days = day_amounts(sales);
    let points = bucket_by_date(&days);
    proof {
        lemma_dated_sales_total(sales@);
        assert(days@.len() == dated_amounts(days@).len());
        assert(sales@.len() == dated_sales(sales@).len());
    }
    points
}

} // verus!
