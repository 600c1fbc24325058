//! The two reports: the range report over a window chosen by the caller, held
//! against the window before it, and the dashboard of today against yesterday.
//! Each is made in two steps with the storage reads between them: a query
//! that says what to read, and the report from what was read.

use crate::aggregate::{
    average_change_text, law_empty_summary, summarize, total_revenue, SalesSummary,
};
use crate::alerts::{expires_soon, expiry_window, Alerts};
use crate::chart::{
    buckets_total, chart_buckets, dated_sales, is_chart_of, law_empty_chart,
    law_sales_chart_partitions_revenue, order_texts, ChartPoint, TextOrder,
};
use crate::compare::{
    absolute_change, absolute_change_text, growth_display, growth_text, percent_change,
    percent_change_text,
};
use crate::decimal::{currency_string, currency_text, decimal_string, decimal_text};
use crate::error::{DateField, ReportError};
use crate::instant::{parsed_instant, Instant, NANOS_PER_DAY};
use crate::names::{name_sales, NamedSale};
use crate::records::{Client, Sale};
use crate::window::{
    previous_end, previous_start, resolve_previous_window, Bound, ReportWindow,
};
use vstd::prelude::*;
use vstd::string::*;

verus! {

/// The label that asks for every payment method.
pub open spec fn all_methods_text() -> Seq<char> {
    "all"@
}

/// Which payment methods a report looks at.
#[derive(Clone, Debug, PartialEq, Eq)]
pub enum PaymentFilter {
    /// Every sale, whatever its payment method.
    All,
    /// The sales paid by exactly this method.
    Only(String),
}

impl PaymentFilter {
    /// Whether a sale paid by `method` passes the filter. The match is exact,
    /// letter for letter and case for case.
    pub open spec fn admits(self, method: Seq<char>) -> bool {
        match self {
            PaymentFilter::All => true,
            PaymentFilter::Only(wanted) => wanted@ == method,
        }
    }

    /// The filter that a label asks for.
    pub open spec fn of_label(label: String) -> PaymentFilter {
        if label@ == all_methods_text() {
            PaymentFilter::All
        } else {
            PaymentFilter::Only(label)
        }
    }

    /// The filter for a label as the caller gives it: `all`, in exactly this
    /// spelling, asks for every method, and any other label for that method alone.
    pub fn from_label(label: String) -> (r: PaymentFilter)
        ensures
            r == PaymentFilter::of_label(label),
    {
        match order_texts(label.as_str(), "all") {
            TextOrder::Same => PaymentFilter::All,
            _ => PaymentFilter::Only(label),
        }
    }

    /// Whether a sale paid by `method` passes the filter.
    pub fn accepts(&self, method: &str) -> (r: bool)
        ensures
            r == self.admits(method@),
    {
        match self {
            PaymentFilter::All => true,
            PaymentFilter::Only(wanted) => match order_texts(wanted.as_str(), method) {
                TextOrder::Same => true,
                _ => false,
            },
        }
    }
}

/// Whether a sale belongs to a window under a payment filter.
pub open spec fn admitted(window: ReportWindow, payment: PaymentFilter, sale: Sale) -> bool {
    window.holds(sale.created_at@) && payment.admits(sale.payment_method@)
}

/// The sales of a window under a payment filter, in the order given.
pub open spec fn selected(sales: Seq<Sale>, window: ReportWindow, payment: PaymentFilter) -> Seq<
    Sale,
> {
    sales.filter(|s: Sale| admitted(window, payment, s))
}

/// Picks from `sales` those made within `window` and paid as `payment` asks,
/// keeping their order.
pub fn select_sales(sales: &Vec<Sale>, window: &ReportWindow, payment: &PaymentFilter) -> (r: Vec<
    Sale,
>)
    ensures
        r@ == selected(sales@, *window, *payment),
{
    let ghost keep = |s: Sale| admitted(*window, *payment, s);
    let mut out: Vec<Sale> = Vec::new();
    let mut i: usize = 0;
    assert(sales@.take(0) =~= Seq::<Sale>::empty());
    assert(Seq::<Sale>::empty().filter(keep) =~= Seq::<Sale>::empty()) by {
        Seq::<Sale>::empty().lemma_filter_len(keep);
    }
    while i < sales.len()
        invariant
            i <= sales@.len(),
            out@ == sales@.take(i as int).filter(keep),
            keep == |s: Sale| admitted(*window, *payment, s),
        decreases sales@.len() - i,
    {
        let sale = &sales[i];
        proof {
            assert(sales@.take(i + 1) =~= sales@.take(i as int).push(*sale));
            sales@.take(i as int).lemma_filter_push(*sale, keep);
        }
        if window.contains(&sale.created_at) && payment.accepts(sale.payment_method.as_str()) {
            out.push(
                Sale {
                    id: sale.id,
                    client_id: sale.client_id,
                    items: sale.items.clone(),
                    total_cents: sale.total_cents,
                    payment_method: sale.payment_method.clone(),
                    created_at: sale.created_at,
                },
            );
        }
        i = i + 1;
    }
    assert(sales@.take(sales@.len() as int) =~= sales@);
    out
}

/// What the storage reads of a range report ask for.
#[derive(Debug, PartialEq, Eq)]
pub struct RangeQuery {
    /// The window that the report is about.
    pub current: ReportWindow,
    /// The window it is held against: as long, and ending a second earlier.
    pub previous: ReportWindow,
    /// The payment methods looked at, the same in both windows.
    pub payment: PaymentFilter,
}

impl RangeQuery {
    /// This is what to read for a report on `[start, end]` under the payment
    /// label `label`.
    pub open spec fn asks_for(self, start: int, end: int, label: String) -> bool {
        &&& self.current.wf()
        &&& self.current.spec_start()@ == start
        &&& self.current.spec_end()@ == end
        &&& self.previous.wf()
        &&& self.previous.spec_start()@ == previous_start(start, end)
        &&& self.previous.spec_end()@ == previous_end(start)
        &&& self.payment == PaymentFilter::of_label(label)
    }
}

/// What to read from storage for a report on `[start, end]`: that window, the
/// window before it, and the payment filter that the label asks for. It is
/// `InvalidRange` exactly where the end is before the start.
pub fn range_query(start: Instant, end: Instant, payment_method: String) -> (r: Result<
    RangeQuery,
    ReportError,
>)
    ensures
        r is Ok == (start@ <= end@),
        r matches Ok(q) ==> q.asks_for(start@, end@, payment_method),
        r matches Err(e) ==> e == ReportError::InvalidRange,
{
    let current = match ReportWindow::new(start, end) {
        Ok(w) => w,
        Err(e) => {
            return Err(e);
        },
    };
    match resolve_previous_window(start, end) {
        Err(e) => Err(e),
        Ok(previous) => Ok(
            RangeQuery { current, previous, payment: PaymentFilter::from_label(payment_method) },
        ),
    }
}

/// Reads the bounds of a range report and works out what to read from storage.
///
/// The start is read first, then the end; the first that is no RFC 3339
/// timestamp gives `InvalidDate` with the field named and the parser's
/// finding. Two timestamps give `InvalidRange` where the end is before the
/// start, and in every other case the query.
pub fn plan_range_report(start_iso: &str, end_iso: &str, payment_method: String) -> (r: Result<
    RangeQuery,
    ReportError,
>)
    ensures
        match r {
            Ok(q) => {
                &&& parsed_instant(start_iso@) is Some
                &&& parsed_instant(end_iso@) is Some
                &&& parsed_instant(start_iso@)->0 <= parsed_instant(end_iso@)->0
                &&& q.asks_for(
                    parsed_instant(start_iso@)->0,
                    parsed_instant(end_iso@)->0,
                    payment_method,
                )
            },
            Err(ReportError::InvalidDate { field: DateField::Start, cause }) => parsed_instant(
                start_iso@,
            ) is None,
            Err(ReportError::InvalidDate { field: DateField::End, cause }) => {
                &&& parsed_instant(start_iso@) is Some
                &&& parsed_instant(end_iso@) is None
            },
            Err(ReportError::InvalidRange) => {
                &&& parsed_instant(start_iso@) is Some
                &&& parsed_instant(end_iso@) is Some
                &&& parsed_instant(end_iso@)->0 < parsed_instant(start_iso@)->0
            },
            Err(ReportError::StorageUnavailable(_)) => false,
        },
{
    let start = match Instant::parse(start_iso) {
        Ok(t) => t,
        Err(cause) => {
            return Err(ReportError::InvalidDate { field: DateField::Start, cause });
        },
    };
    let end = match Instant::parse(end_iso) {
        Ok(t) => t,
        Err(cause) => {
            return Err(ReportError::InvalidDate { field: DateField::End, cause });
        },
    };
    range_query(start, end, payment_method)
}

/// One figure of a report with its change against the window before.
#[derive(Clone, Debug, PartialEq, Eq)]
pub struct Metric {
    pub value: String,
    pub change: String,
}

/// The four figures of a range report.
#[derive(Clone, Debug, PartialEq, Eq)]
pub struct ReportSummary {
    pub revenue: Metric,
    pub sales_count: Metric,
    pub average_ticket: Metric,
    pub unique_clients: Metric,
}

/// Decimal places of the percentages that reports show.
pub const CHANGE_PLACES: u8 = 1;

impl ReportSummary {
    /// The figures read as `current` says, each with its percentage change
    /// from `previous` to one decimal place. The change of the average ticket
    /// is taken from revenue and count, not from the rounded averages.
    pub open spec fn presents(self, current: SalesSummary, previous: SalesSummary) -> bool {
        &&& self.revenue.value@ == currency_text(current.spec_revenue_cents() as nat)
        &&& self.revenue.change@ == percent_change_text(
            current.spec_revenue_cents() as nat,
            previous.spec_revenue_cents() as nat,
            CHANGE_PLACES as nat,
        )
        &&& self.sales_count.value@ == decimal_text(current.spec_sales_count() as nat)
        &&& self.sales_count.change@ == percent_change_text(
            current.spec_sales_count() as nat,
            previous.spec_sales_count() as nat,
            CHANGE_PLACES as nat,
        )
        &&& self.average_ticket.value@ == currency_text(current.spec_average_ticket_cents())
        &&& self.average_ticket.change@ == average_change_text(
            current.spec_revenue_cents() as nat,
            current.spec_sales_count() as nat,
            previous.spec_revenue_cents() as nat,
            previous.spec_sales_count() as nat,
            CHANGE_PLACES as nat,
        )
        &&& self.unique_clients.value@ == decimal_text(current.spec_unique_clients() as nat)
        &&& self.unique_clients.change@ == percent_change_text(
            current.spec_unique_clients() as nat,
            previous.spec_unique_clients() as nat,
            CHANGE_PLACES as nat,
        )
    }
}

/// Puts the figures of two windows side by side: each figure of `current` as
/// it is displayed, with its percentage change from `previous`.
pub fn present_summary(current: &SalesSummary, previous: &SalesSummary) -> (r: ReportSummary)
    ensures
        r.presents(*current, *previous),
{
    ReportSummary {
        revenue: Metric {
            value: currency_string(current.revenue_cents()),
            change: percent_change(
                current.revenue_cents(),
                previous.revenue_cents(),
                CHANGE_PLACES,
            ),
        },
        sales_count: Metric {
            value: decimal_string(current.sales_count() as u128),
            change: percent_change(
                current.sales_count() as u128,
                previous.sales_count() as u128,
                CHANGE_PLACES,
            ),
        },
        average_ticket: Metric {
            value: currency_string(current.average_ticket_cents()),
            change: current.average_change(previous, CHANGE_PLACES),
        },
        unique_clients: Metric {
            value: decimal_string(current.unique_clients() as u128),
            change: percent_change(
                current.unique_clients() as u128,
                previous.unique_clients() as u128,
                CHANGE_PLACES,
            ),
        },
    }
}

/// A range report: the figures of the window with their changes, the revenue
/// day by day, and the sales with the names of their clients.
#[derive(Clone, Debug, PartialEq, Eq)]
pub struct RangeReport {
    /// The figures of the current window as numbers.
    pub totals: SalesSummary,
    /// The same figures as displayed, with their changes.
    pub summary: ReportSummary,
    pub chart_data: Vec<ChartPoint>,
    pub sales_list: Vec<NamedSale>,
}

impl RangeReport {
    /// This is the report of the sales `current`, held against `previous`,
    /// with names from `clients`.
    pub open spec fn reports(
        self,
        current: Seq<Sale>,
        previous: Seq<Sale>,
        clients: Seq<Client>,
    ) -> bool {
        &&& self.totals.summarizes(current)
        &&& exists|before: SalesSummary| #[trigger]
            before.summarizes(previous) && self.summary.presents(self.totals, before)
        &&& is_chart_of(self.chart_data@, dated_sales(current))
        &&& self.sales_list@.len() == current.len()
        &&& forall|i: int|
            0 <= i < current.len() ==> (#[trigger] self.sales_list@[i]).names(current[i], clients)
    }
}

/// Whatever the sales, a range report agrees with itself: the days of its chart
/// add up to the revenue of its summary, it counts no more distinct clients
/// than sales, and of no sales it shows zeros, an empty chart and an empty list.
pub proof fn law_report_is_consistent(
    report: RangeReport,
    current: Seq<Sale>,
    previous: Seq<Sale>,
    clients: Seq<Client>,
)
    requires
        report.reports(current, previous, clients),
    ensures
        buckets_total(report.chart_data@) == report.totals.spec_revenue_cents(),
        report.totals.spec_unique_clients() <= report.totals.spec_sales_count(),
        current.len() == 0 ==> {
            &&& report.totals.spec_revenue_cents() == 0
            &&& report.totals.spec_sales_count() == 0
            &&& report.totals.spec_average_ticket_cents() == 0
            &&& report.totals.spec_unique_clients() == 0
            &&& report.chart_data@.len() == 0
            &&& report.sales_list@.len() == 0
        },
{
    law_sales_chart_partitions_revenue(report.chart_data@, current);
    crate::aggregate::law_unique_clients_at_most_sales(current);
    if current.len() == 0 {
        assert(current =~= Seq::<Sale>::empty());
        law_empty_summary(report.totals);
        law_empty_chart(report.chart_data@, dated_sales(current));
    }
}

/// Makes the range report from what storage read: the sales of the current
/// window, those of the window before, and the clients that the current
/// sales name. The days of the chart add up to the revenue of the summary.
/// Without sales the figures are zero and the chart and the list are empty.
pub fn range_report(current: &Vec<Sale>, previous: &Vec<Sale>, clients: &Vec<Client>) -> (r:
    RangeReport)
    ensures
        r.reports(current@, previous@, clients@),
        buckets_total(r.chart_data@) == r.totals.spec_revenue_cents(),
        r.totals.spec_unique_clients() <= r.totals.spec_sales_count(),
        current@.len() == 0 ==> {
            &&& r.totals.spec_revenue_cents() == 0
            &&& r.totals.spec_sales_count() == 0
            &&& r.totals.spec_average_ticket_cents() == 0
            &&& r.totals.spec_unique_clients() == 0
            &&& r.chart_data@.len() == 0
            &&& r.sales_list@.len() == 0
        },
{
    let totals = summarize(current);
    let before = summarize(previous);
    let summary = present_summary(&totals, &before);
    let chart_data = chart_buckets(current);
    let sales_list = name_sales(current, clients);
    let report = RangeReport { totals, summary, chart_data, sales_list };
    proof {
        law_report_is_consistent(report, current@, previous@, clients@);
    }
    report
}

/// What the storage reads of a dashboard ask for at one instant.
#[derive(Clone, Copy, Debug, PartialEq, Eq)]
pub struct DashboardQuery {
    /// The instant of the snapshot.
    pub now: Instant,
    /// From the start of the current UTC day to `now`.
    pub today: ReportWindow,
    /// The whole UTC day before, up to but not including the start of today.
    pub yesterday: ReportWindow,
    /// From `now` to thirty days later: the expiries that raise an alert.
    pub expiry: ReportWindow,
}

impl DashboardQuery {
    /// The windows are those of the instant `now`.
    pub open spec fn is_for(self, now: Instant) -> bool {
        &&& self.now == now
        &&& self.today.wf()
        &&& self.yesterday.wf()
        &&& self.expiry.wf()
        &&& forall|t: int| self.today.holds(t) == (now.day_start() <= t <= now@)
        &&& forall|t: int|
            self.yesterday.holds(t) == (now.day_start() - NANOS_PER_DAY <= t < now.day_start())
        &&& forall|t: int| self.expiry.holds(t) == expires_soon(t, now@)
    }
}

/// The windows of a dashboard at `now`: today so far, the day before, and the
/// thirty days ahead.
pub fn plan_dashboard(now: Instant) -> (r: DashboardQuery)
    ensures
        r.is_for(now),
{
    let today_start = now.start_of_day();
    let first: i128 = today_start.to_nanos();
    let today = ReportWindow::between(Bound::at(&today_start), Bound::at(&now));
    let yesterday = ReportWindow::between(
        Bound::within(first - NANOS_PER_DAY),
        Bound::within(first - 1),
    );
    DashboardQuery { now, today, yesterday, expiry: expiry_window(now) }
}

/// The dashboard of one instant.
#[derive(Clone, Debug, PartialEq, Eq)]
pub struct Dashboard {
    /// Today's revenue as money.
    pub revenue: String,
    /// Its change against yesterday, in percent to one decimal place.
    pub revenue_change: String,
    pub sales_count: u64,
    /// Today's sales less yesterday's, signed.
    pub sales_change: String,
    pub client_count: u64,
    /// The number of clients, shown as a gain.
    pub client_change: String,
    /// Low-stock products and expiring gallons together.
    pub alerts: u128,
}

impl Dashboard {
    /// This is the dashboard of today's sales against yesterday's, with the
    /// given number of clients and alert counts.
    pub open spec fn shows(
        self,
        today: Seq<Sale>,
        yesterday: Seq<Sale>,
        client_count: u64,
        alerts: Alerts,
    ) -> bool {
        &&& self.revenue@ == currency_text(total_revenue(today))
        &&& self.revenue_change@ == percent_change_text(
            total_revenue(today),
            total_revenue(yesterday),
            CHANGE_PLACES as nat,
        )
        &&& self.sales_count == today.len()
        &&& self.sales_change@ == absolute_change_text(today.len(), yesterday.len())
        &&& self.client_count == client_count
        &&& self.client_change@ == growth_text(client_count as nat)
        &&& self.alerts == alerts.low_stock + alerts.expiring
    }
}

/// Makes the dashboard from what storage read: the sales of today and of
/// yesterday, the number of clients, and the two alert counts.
pub fn dashboard(today: &Vec<Sale>, yesterday: &Vec<Sale>, client_count: u64, alerts: Alerts) -> (r:
    Dashboard)
    ensures
        r.shows(today@, yesterday@, client_count, alerts),
{
    let now = summarize(today);
    let before = summarize(yesterday);
    Dashboard {
        revenue: currency_string(now.revenue_cents()),
        revenue_change: percent_change(
            now.revenue_cents(),
            before.revenue_cents(),
            CHANGE_PLACES,
        ),
        sales_count: now.sales_count(),
        sales_change: absolute_change(now.sales_count(), before.sales_count()),
        client_count,
        client_change: growth_display(client_count),
        alerts: alerts.total(),
    }
}

} // verus!
