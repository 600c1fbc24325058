use aquagas_reports::aggregate::{summarize, SalesSummary};
use aquagas_reports::alerts::{evaluate_alerts, expiring_soon, expiry_window, low_on_stock, Alerts};
use aquagas_reports::chart::{
    bucket_by_date, chart_buckets, day_amounts, order_texts, ChartPoint, DayAmount, TextOrder,
};
use aquagas_reports::error::{reading, DateField, ReportError};
use aquagas_reports::instant::{Instant, MAX_SECS, MIN_SECS};
use aquagas_reports::names::{
    distinct_ids, gallon_clients, name_gallons, name_sales, sale_clients, ClientDirectory,
};
use aquagas_reports::records::{Client, ClientGallon, Product, Sale};
use aquagas_reports::report::{
    dashboard, plan_dashboard, plan_range_report, present_summary, range_query, range_report,
    select_sales, PaymentFilter,
};
use aquagas_reports::window::{Bound, ReportWindow};

const MARCH_FIRST: i64 = 1_709_251_200;
const DAY: i64 = 86_400;

fn at(secs: i64) -> Instant {
    Instant::from_parts(secs, 0).unwrap()
}

fn sale(id: i32, client_id: i32, total_cents: u64, method: &str, secs: i64) -> Sale {
    Sale {
        id,
        client_id,
        items: format!("[{{\"sale\":{}}}]", id),
        total_cents,
        payment_method: method.to_string(),
        created_at: at(secs),
    }
}

fn bound(secs: i64, nanos: u32) -> Bound {
    Bound::at(&Instant::from_parts(secs, nanos).unwrap())
}

fn summary(revenue_cents: u128, sales_count: u64, unique_clients: u64) -> SalesSummary {
    SalesSummary::of(revenue_cents, sales_count, unique_clients).unwrap()
}

fn client(id: i32, name: &str) -> Client {
    Client { id, name: name.to_string() }
}

fn point(date: &str, revenue_cents: u128) -> ChartPoint {
    ChartPoint { date: date.to_string(), revenue_cents }
}

fn march_first_sales() -> Vec<Sale> {
    vec![
        sale(1, 7, 10_000, "PIX", MARCH_FIRST),
        sale(2, 8, 5_000, "Dinheiro", MARCH_FIRST + 3_600),
        sale(3, 7, 2_500, "PIX", MARCH_FIRST + DAY - 1),
    ]
}

#[test]
fn summary_of_three_sales_on_one_day() {
    let s = summarize(&march_first_sales());
    assert_eq!(s, summary(17_500, 3, 2));
    assert_eq!(s.revenue_cents(), 17_500);
    assert_eq!(s.sales_count(), 3);
    assert_eq!(s.average_ticket_cents(), 5_833);
    assert_eq!(s.unique_clients(), 2);
}

#[test]
fn summary_of_no_sales_is_all_zero() {
    let s = summarize(&Vec::new());
    assert_eq!(s, summary(0, 0, 0));
    assert_eq!(s.revenue_cents(), 0);
    assert_eq!(s.sales_count(), 0);
    assert_eq!(s.average_ticket_cents(), 0);
    assert_eq!(s.unique_clients(), 0);
}

#[test]
fn summary_holds_only_what_sales_can_come_to() {
    assert!(SalesSummary::of(1, 0, 0).is_none());
    assert!(SalesSummary::of(0, 0, 1).is_none());
    assert!(SalesSummary::of(0, 3, 4).is_none());
    assert!(SalesSummary::of(u64::MAX as u128 + 1, 1, 1).is_none());
    assert!(SalesSummary::of(u64::MAX as u128, 1, 1).is_some());
    assert!(SalesSummary::of(u128::MAX, u64::MAX, 0).is_none());
    assert!(SalesSummary::of((u64::MAX as u128) * (u64::MAX as u128), u64::MAX, u64::MAX).is_some());
}

#[test]
fn average_change_is_taken_from_revenue_and_count() {
    assert_eq!(summary(3_003, 3, 1).average_change(&summary(3_000, 3, 1), 1), "+0.1%");
    assert_eq!(summary(3_000, 3, 1).average_change(&summary(3_003, 3, 1), 1), "-0.1%");
    assert_eq!(summary(17_500, 3, 2).average_change(&summary(15_000, 1, 1), 1), "-61.1%");
    assert_eq!(summary(15_000, 3, 1).average_change(&summary(10_000, 4, 1), 1), "+100.0%");
    assert_eq!(summary(10, 3, 1).average_change(&summary(10, 3, 1), 1), "+0.0%");
    assert_eq!(summary(1, 3, 1).average_change(&summary(1, 2, 1), 2), "-33.33%");
    assert_eq!(summary(9, 8, 1).average_change(&summary(1, 1, 1), 0), "+12%");
    assert_eq!(summary(11, 8, 1).average_change(&summary(1, 1, 1), 0), "+38%");
}

#[test]
fn average_change_from_or_to_nothing() {
    assert_eq!(summary(100, 2, 1).average_change(&summary(0, 0, 0), 1), "+100%");
    assert_eq!(summary(100, 2, 1).average_change(&summary(0, 5, 1), 1), "+100%");
    assert_eq!(summary(0, 2, 1).average_change(&summary(0, 5, 1), 1), "0%");
    assert_eq!(summary(0, 0, 0).average_change(&summary(0, 0, 0), 1), "0%");
    assert_eq!(summary(0, 0, 0).average_change(&summary(100, 2, 1), 1), "-100.0%");
    assert_eq!(summary(0, 4, 1).average_change(&summary(100, 2, 1), 1), "-100.0%");
}

#[test]
fn average_change_of_largest_figures() {
    let top = (u64::MAX as u128) * (u64::MAX as u128);
    assert_eq!(
        summary(u64::MAX as u128, 1, 1).average_change(&summary(1, u64::MAX, 1), 0),
        "+34028236692093846342648111928434910822400%"
    );
    assert_eq!(summary(top, u64::MAX, 1).average_change(&summary(top, u64::MAX, 1), 3), "+0.000%");
    assert_eq!(
        summary(top, u64::MAX, 1).average_change(&summary(top - 1, u64::MAX, 1), 40),
        "+0.0000000000000000000000000000000000002939%"
    );
    assert_eq!(summary(1, u64::MAX, 1).average_change(&summary(top, u64::MAX, 1), 1), "-100.0%");
}

#[test]
fn unique_clients_never_exceed_sales() {
    let sales = vec![
        sale(1, 1, 1, "PIX", 0),
        sale(2, 1, 1, "PIX", 1),
        sale(3, 2, 1, "PIX", 2),
        sale(4, 3, 1, "PIX", 3),
        sale(5, 3, 1, "PIX", 4),
    ];
    let s = summarize(&sales);
    assert_eq!(s.unique_clients(), 3);
    assert_eq!(s.sales_count(), 5);
    assert!(s.unique_clients() <= s.sales_count());
}

#[test]
fn average_ticket_rounds_half_to_even_cent() {
    let s = summarize(&vec![sale(1, 1, 12, "PIX", 0), sale(2, 1, 13, "PIX", 0)]);
    assert_eq!(s.average_ticket_cents(), 12);
    let t = summarize(&vec![sale(1, 1, 13, "PIX", 0), sale(2, 1, 14, "PIX", 0)]);
    assert_eq!(t.average_ticket_cents(), 14);
    let u = summarize(&vec![sale(1, 1, 10, "PIX", 0), sale(2, 1, 10, "PIX", 0), sale(3, 1, 12, "PIX", 0)]);
    assert_eq!(u.average_ticket_cents(), 11);
}

#[test]
fn revenue_sums_beyond_sixty_four_bits() {
    let sales = vec![sale(1, 1, u64::MAX, "PIX", 0), sale(2, 2, u64::MAX, "PIX", 0)];
    let s = summarize(&sales);
    assert_eq!(s.revenue_cents(), 2 * (u64::MAX as u128));
    assert_eq!(s.average_ticket_cents(), u64::MAX as u128);
    assert_eq!(chart_buckets(&sales), vec![point("1970-01-01", 2 * (u64::MAX as u128))]);
}

#[test]
fn chart_of_three_sales_on_one_day() {
    assert_eq!(chart_buckets(&march_first_sales()), vec![point("2024-03-01", 17_500)]);
}

#[test]
fn chart_of_no_sales_is_empty() {
    assert_eq!(chart_buckets(&Vec::new()), Vec::<ChartPoint>::new());
}

#[test]
fn chart_groups_by_day_in_ascending_order() {
    let sales = vec![
        sale(1, 1, 300, "PIX", MARCH_FIRST + 2 * DAY + 5),
        sale(2, 1, 100, "PIX", MARCH_FIRST),
        sale(3, 2, 50, "PIX", MARCH_FIRST - 1),
        sale(4, 2, 20, "PIX", MARCH_FIRST + 2 * DAY),
        sale(5, 3, 1, "PIX", MARCH_FIRST + DAY - 1),
    ];
    let chart = chart_buckets(&sales);
    assert_eq!(
        chart,
        vec![point("2024-02-29", 50), point("2024-03-01", 101), point("2024-03-03", 320)]
    );
}

#[test]
fn chart_days_add_up_to_revenue() {
    let sales = vec![
        sale(1, 1, 300, "PIX", MARCH_FIRST + 2 * DAY + 5),
        sale(2, 1, 100, "PIX", MARCH_FIRST),
        sale(3, 2, 50, "PIX", MARCH_FIRST - 1),
        sale(4, 2, 20, "PIX", MARCH_FIRST + 40 * DAY),
        sale(5, 3, 1, "PIX", -5),
    ];
    let total: u128 = chart_buckets(&sales).iter().map(|p| p.revenue_cents).sum();
    assert_eq!(total, summarize(&sales).revenue_cents());
    assert_eq!(total, 471);
}

fn amount(date: &str, cents: u64) -> DayAmount {
    DayAmount { date: date.to_string(), cents }
}

#[test]
fn amounts_are_bucketed_by_date_text() {
    let entries = vec![
        amount("2024-03-03", 30),
        amount("2024-03-01", 10),
        amount("2024-03-02", 20),
        amount("2024-03-03", 5),
        amount("2024-02-01", 1),
        amount("2024-04-01", 2),
        amount("2024-03-01", 0),
    ];
    assert_eq!(
        bucket_by_date(&entries),
        vec![
            point("2024-02-01", 1),
            point("2024-03-01", 10),
            point("2024-03-02", 20),
            point("2024-03-03", 35),
            point("2024-04-01", 2),
        ]
    );
    assert_eq!(bucket_by_date(&Vec::new()), Vec::<ChartPoint>::new());
}

#[test]
fn buckets_order_by_text_not_by_time() {
    let entries = vec![amount("+10000-01-01", 1), amount("9999-12-31", 2), amount("-0001-12-31", 3)];
    assert_eq!(
        bucket_by_date(&entries),
        vec![point("+10000-01-01", 1), point("-0001-12-31", 3), point("9999-12-31", 2)]
    );
}

#[test]
fn day_amounts_date_each_sale() {
    assert_eq!(
        day_amounts(&march_first_sales()),
        vec![amount("2024-03-01", 10_000), amount("2024-03-01", 5_000), amount("2024-03-01", 2_500)]
    );
    assert_eq!(
        day_amounts(&vec![sale(1, 1, 7, "PIX", MARCH_FIRST - 1)]),
        vec![amount("2024-02-29", 7)]
    );
}

#[test]
fn texts_order_lexicographically() {
    assert_eq!(order_texts("2024-03-01", "2024-03-02"), TextOrder::Before);
    assert_eq!(order_texts("2024-03-02", "2024-03-01"), TextOrder::After);
    assert_eq!(order_texts("2024-03-01", "2024-03-01"), TextOrder::Same);
    assert_eq!(order_texts("", ""), TextOrder::Same);
    assert_eq!(order_texts("", "a"), TextOrder::Before);
    assert_eq!(order_texts("ab", "a"), TextOrder::After);
    assert_eq!(order_texts("a", "ab"), TextOrder::Before);
    assert_eq!(order_texts("Z", "a"), TextOrder::Before);
    assert_eq!(order_texts("é", "z"), TextOrder::After);
}

#[test]
fn twelve_low_products_and_three_expiring_gallons_make_fifteen_alerts() {
    let now = at(MARCH_FIRST);
    let products: Vec<Product> =
        (0..12).map(|id| Product { id, stock_quantity: 5 }).collect();
    let gallons: Vec<ClientGallon> = (0..3)
        .map(|id| ClientGallon {
            id,
            client_id: 1,
            brand: "Indaia".to_string(),
            expiration_date: at(MARCH_FIRST + 10 * DAY),
        })
        .collect();
    let alerts = evaluate_alerts(&products, &gallons, now);
    assert_eq!(alerts, Alerts { low_stock: 12, expiring: 3 });
    assert_eq!(alerts.total(), 15);
}

#[test]
fn low_stock_threshold_is_ten() {
    assert!(low_on_stock(&Product { id: 1, stock_quantity: 9 }));
    assert!(!low_on_stock(&Product { id: 1, stock_quantity: 10 }));
    assert!(low_on_stock(&Product { id: 1, stock_quantity: -3 }));
    assert!(low_on_stock(&Product { id: 1, stock_quantity: 0 }));
    assert!(!low_on_stock(&Product { id: 1, stock_quantity: i32::MAX }));
}

#[test]
fn expiry_alert_covers_thirty_days_inclusive() {
    let now = Instant::from_parts(MARCH_FIRST, 500).unwrap();
    assert!(expiring_soon(&now, &now));
    assert!(!expiring_soon(&Instant::from_parts(MARCH_FIRST, 499).unwrap(), &now));
    assert!(expiring_soon(&Instant::from_parts(MARCH_FIRST + 30 * DAY, 500).unwrap(), &now));
    assert!(!expiring_soon(&Instant::from_parts(MARCH_FIRST + 30 * DAY, 501).unwrap(), &now));
    assert!(!expiring_soon(&at(MIN_SECS), &at(MAX_SECS)));
    assert!(!expiring_soon(&at(MAX_SECS), &at(MIN_SECS)));
}

#[test]
fn alerts_skip_rows_outside_their_bounds() {
    let now = at(MARCH_FIRST);
    let products = vec![
        Product { id: 1, stock_quantity: 9 },
        Product { id: 2, stock_quantity: 10 },
        Product { id: 3, stock_quantity: 11 },
    ];
    let gallon = |id: i32, secs: i64| ClientGallon {
        id,
        client_id: 1,
        brand: "Cristal".to_string(),
        expiration_date: at(secs),
    };
    let gallons = vec![
        gallon(1, MARCH_FIRST - 1),
        gallon(2, MARCH_FIRST),
        gallon(3, MARCH_FIRST + 30 * DAY),
        gallon(4, MARCH_FIRST + 30 * DAY + 1),
    ];
    let alerts = evaluate_alerts(&products, &gallons, now);
    assert_eq!(alerts, Alerts { low_stock: 1, expiring: 2 });
    assert_eq!(evaluate_alerts(&Vec::new(), &Vec::new(), now).total(), 0);
}

#[test]
fn alert_total_does_not_overflow() {
    assert_eq!(
        Alerts { low_stock: u64::MAX, expiring: u64::MAX }.total(),
        2 * (u64::MAX as u128)
    );
}

#[test]
fn expiry_window_spans_thirty_days() {
    let w = expiry_window(at(MARCH_FIRST));
    assert_eq!(w.start(), bound(MARCH_FIRST, 0));
    assert_eq!(w.end(), bound(MARCH_FIRST + 30 * DAY, 0));
    let last = expiry_window(Instant::from_parts(MAX_SECS, 999_999_999).unwrap());
    assert_eq!(last.start().secs(), MAX_SECS);
    assert_eq!(last.end().secs(), MAX_SECS + 30 * DAY);
    assert_eq!(last.end().subsec_nanos(), 999_999_999);
    assert_eq!(last.end().to_nanos(), 253_404_979_199_999_999_999);
}

#[test]
fn sale_of_removed_client_gets_placeholder() {
    let sales = vec![sale(1, 7, 100, "PIX", 0), sale(2, 99, 200, "Fiado", 5)];
    let clients = vec![client(7, "Maria Silva")];
    let named = name_sales(&sales, &clients);
    assert_eq!(named.len(), 2);
    assert_eq!(named[0].client_name, "Maria Silva");
    assert_eq!(named[1].client_name, "Cliente removido");
    assert_eq!(named[1].id, 2);
    assert_eq!(named[1].items, sales[1].items);
    assert_eq!(named[1].total_cents, 200);
    assert_eq!(named[1].payment_method, "Fiado");
    assert_eq!(named[1].created_at, at(5));
}

#[test]
fn names_resolve_without_any_client() {
    let sales = vec![sale(1, 7, 100, "PIX", 0)];
    let named = name_sales(&sales, &Vec::new());
    assert_eq!(named[0].client_name, "Cliente removido");
    assert!(name_sales(&Vec::new(), &Vec::new()).is_empty());
}

#[test]
fn gallon_of_unknown_client_gets_its_own_placeholder() {
    let gallons = vec![
        ClientGallon { id: 1, client_id: 3, brand: "Indaia".to_string(), expiration_date: at(9) },
        ClientGallon { id: 2, client_id: 4, brand: "Cristal".to_string(), expiration_date: at(8) },
    ];
    let named = name_gallons(&gallons, &vec![client(4, "Ana Costa")]);
    assert_eq!(named[0].client_name, "Cliente desconhecido");
    assert_eq!(named[0].brand, "Indaia");
    assert_eq!(named[0].expiration_date, at(9));
    assert_eq!(named[1].client_name, "Ana Costa");
    assert_eq!(named[1].id, 2);
}

#[test]
fn directory_takes_last_of_repeated_ids() {
    let book = ClientDirectory::build(&vec![client(1, "Old"), client(2, "Other"), client(1, "New")]);
    assert_eq!(book.resolve(1, "-"), "New");
    assert_eq!(book.resolve(2, "-"), "Other");
    assert_eq!(book.resolve(3, "-"), "-");
}

#[test]
fn distinct_ids_keep_first_appearance() {
    assert_eq!(distinct_ids(&vec![3, 1, 3, 2, 1, 3]), vec![3, 1, 2]);
    assert_eq!(distinct_ids(&Vec::new()), Vec::<i32>::new());
    assert_eq!(distinct_ids(&vec![i32::MIN, i32::MAX, i32::MIN]), vec![i32::MIN, i32::MAX]);
}

#[test]
fn clients_to_fetch_are_named_once() {
    assert_eq!(sale_clients(&march_first_sales()), vec![7, 8]);
    assert!(sale_clients(&Vec::new()).is_empty());
    let gallon = |client_id: i32| ClientGallon {
        id: 1,
        client_id,
        brand: "Indaia".to_string(),
        expiration_date: at(0),
    };
    assert_eq!(gallon_clients(&vec![gallon(5), gallon(4), gallon(5)]), vec![5, 4]);
}

#[test]
fn payment_filter_all_is_exact_and_case_sensitive() {
    assert_eq!(PaymentFilter::from_label("all".to_string()), PaymentFilter::All);
    assert_eq!(
        PaymentFilter::from_label("All".to_string()),
        PaymentFilter::Only("All".to_string())
    );
    assert_eq!(
        PaymentFilter::from_label("all ".to_string()),
        PaymentFilter::Only("all ".to_string())
    );
    assert_eq!(PaymentFilter::from_label(String::new()), PaymentFilter::Only(String::new()));
    assert!(PaymentFilter::All.accepts("PIX"));
    assert!(PaymentFilter::Only("PIX".to_string()).accepts("PIX"));
    assert!(!PaymentFilter::Only("PIX".to_string()).accepts("pix"));
    assert!(!PaymentFilter::Only("PIX".to_string()).accepts("PIX "));
}

#[test]
fn select_sales_filters_by_window_and_method() {
    let mut sales = march_first_sales();
    sales.push(sale(4, 9, 700, "PIX", MARCH_FIRST - 1));
    sales.push(sale(5, 9, 800, "PIX", MARCH_FIRST + DAY));
    let window = ReportWindow::new(at(MARCH_FIRST), at(MARCH_FIRST + DAY - 1)).unwrap();
    let all = select_sales(&sales, &window, &PaymentFilter::All);
    assert_eq!(all, march_first_sales());
    let pix = select_sales(&sales, &window, &PaymentFilter::Only("PIX".to_string()));
    assert_eq!(pix, vec![sales[0].clone(), sales[2].clone()]);
    let none = select_sales(&sales, &window, &PaymentFilter::Only("Cheque".to_string()));
    assert!(none.is_empty());
}

#[test]
fn plan_range_report_gives_both_windows() {
    let q = plan_range_report("2024-03-01T00:00:00Z", "2024-03-31T23:59:59Z", "all".to_string())
        .unwrap();
    assert_eq!(q.current.start(), bound(1_709_251_200, 0));
    assert_eq!(q.current.end(), bound(1_711_929_599, 0));
    assert_eq!(q.previous.start(), bound(1_706_572_800, 0));
    assert_eq!(q.previous.end(), bound(1_709_251_199, 0));
    assert_eq!(q.payment, PaymentFilter::All);
    let p = plan_range_report("2024-03-01T00:00:00Z", "2024-03-01T00:00:00Z", "PIX".to_string())
        .unwrap();
    assert_eq!(p.previous.start(), p.previous.end());
    assert_eq!(p.payment, PaymentFilter::Only("PIX".to_string()));
}

#[test]
fn range_query_resolves_windows_from_instants() {
    let q = range_query(at(1_000), at(1_600), "Fiado".to_string()).unwrap();
    assert_eq!(q.current.start(), bound(1_000, 0));
    assert_eq!(q.current.end(), bound(1_600, 0));
    assert_eq!(q.previous.start(), bound(399, 0));
    assert_eq!(q.previous.end(), bound(999, 0));
    assert_eq!(q.payment, PaymentFilter::Only("Fiado".to_string()));
    assert_eq!(range_query(at(1_600), at(1_000), "all".to_string()), Err(ReportError::InvalidRange));
    let widest = range_query(at(MIN_SECS), at(MAX_SECS), "all".to_string()).unwrap();
    assert_eq!(widest.previous.end().secs(), MIN_SECS - 1);
    assert_eq!(widest.previous.start().secs(), 2 * MIN_SECS - MAX_SECS - 1);
}

#[test]
fn plan_range_report_names_the_bad_field() {
    let bad_start = plan_range_report("soon", "also soon", "all".to_string());
    assert!(matches!(bad_start, Err(ReportError::InvalidDate { field: DateField::Start, .. })));
    let bad_end = plan_range_report("2024-03-01T00:00:00Z", "2024-03-32T00:00:00Z", "all".to_string());
    assert!(matches!(bad_end, Err(ReportError::InvalidDate { field: DateField::End, .. })));
    let both = plan_range_report("2024-03-01 25:00:00Z", "", "all".to_string());
    assert!(matches!(both, Err(ReportError::InvalidDate { field: DateField::Start, .. })));
}

#[test]
fn plan_range_report_rejects_reversed_range() {
    let r = plan_range_report("2024-03-02T00:00:00Z", "2024-03-01T00:00:00Z", "all".to_string());
    assert_eq!(r, Err(ReportError::InvalidRange));
    let by_offset =
        plan_range_report("2024-03-01T00:00:00-03:00", "2024-03-01T02:59:59Z", "all".to_string());
    assert_eq!(by_offset, Err(ReportError::InvalidRange));
}

#[test]
fn plan_range_report_takes_every_ordered_range() {
    let first = plan_range_report("0000-01-01T00:00:00Z", "0000-01-01T00:00:00Z", "all".to_string())
        .unwrap();
    assert_eq!(first.previous.start().secs(), -62_167_219_201);
    assert_eq!(first.previous.end().secs(), -62_167_219_201);
    let offset = plan_range_report("0000-01-01T00:00:00+00:01", "2024-03-01T00:00:00Z", "all".to_string())
        .unwrap();
    assert_eq!(offset.current.start().secs(), -62_167_219_260);
    let long = plan_range_report("0001-01-01T00:00:00Z", "2024-01-01T00:00:00Z", "all".to_string())
        .unwrap();
    assert_eq!(long.current.start().secs(), -62_135_596_800);
    assert_eq!(long.current.end().secs(), 1_704_067_200);
    assert_eq!(long.previous.end().secs(), -62_135_596_801);
    assert_eq!(long.previous.start().secs(), -62_135_596_801 - (1_704_067_200 + 62_135_596_800));
    let widest = plan_range_report(
        "0000-01-01T00:00:00+23:59",
        "9999-12-31T23:59:60.999999999-23:59",
        "all".to_string(),
    )
    .unwrap();
    assert_eq!(widest.current.start().secs(), -62_167_305_540);
    assert_eq!(widest.current.end().secs(), 253_402_387_140);
    assert_eq!(widest.previous.end().secs(), -62_167_305_541);
}

#[test]
fn range_report_of_three_sales_on_one_day() {
    let q = plan_range_report("2024-03-01T00:00:00Z", "2024-03-01T23:59:59Z", "all".to_string())
        .unwrap();
    let mut stored = march_first_sales();
    stored.push(sale(4, 9, 15_000, "PIX", MARCH_FIRST - 3_600));
    let current = select_sales(&stored, &q.current, &q.payment);
    let previous = select_sales(&stored, &q.previous, &q.payment);
    let report = range_report(&current, &previous, &vec![client(7, "Maria Silva")]);
    assert_eq!(report.totals.revenue_cents(), 17_500);
    assert_eq!(report.totals.sales_count(), 3);
    assert_eq!(report.totals.average_ticket_cents(), 5_833);
    assert_eq!(report.totals.unique_clients(), 2);
    assert_eq!(report.summary.revenue.value, "R$ 175.00");
    assert_eq!(report.summary.revenue.change, "+16.7%");
    assert_eq!(report.summary.sales_count.value, "3");
    assert_eq!(report.summary.sales_count.change, "+200.0%");
    assert_eq!(report.summary.average_ticket.value, "R$ 58.33");
    assert_eq!(report.summary.average_ticket.change, "-61.1%");
    assert_eq!(report.summary.unique_clients.value, "2");
    assert_eq!(report.summary.unique_clients.change, "+100.0%");
    assert_eq!(report.chart_data, vec![point("2024-03-01", 17_500)]);
    assert_eq!(report.sales_list.len(), 3);
    assert_eq!(report.sales_list[0].client_name, "Maria Silva");
    assert_eq!(report.sales_list[1].client_name, "Cliente removido");
    assert_eq!(report.sales_list[2].client_name, "Maria Silva");
}

#[test]
fn range_report_of_empty_window() {
    let report = range_report(&Vec::new(), &march_first_sales(), &Vec::new());
    assert_eq!(report.totals.revenue_cents(), 0);
    assert_eq!(report.totals.sales_count(), 0);
    assert_eq!(report.totals.average_ticket_cents(), 0);
    assert_eq!(report.totals.unique_clients(), 0);
    assert_eq!(report.summary.revenue.value, "R$ 0.00");
    assert_eq!(report.summary.revenue.change, "-100.0%");
    assert_eq!(report.summary.sales_count.value, "0");
    assert_eq!(report.summary.average_ticket.value, "R$ 0.00");
    assert_eq!(report.summary.average_ticket.change, "-100.0%");
    assert!(report.chart_data.is_empty());
    assert!(report.sales_list.is_empty());
    let blank = range_report(&Vec::new(), &Vec::new(), &Vec::new());
    assert_eq!(blank.summary.revenue.change, "0%");
    assert_eq!(blank.summary.sales_count.change, "0%");
    assert_eq!(blank.summary.average_ticket.change, "0%");
    assert_eq!(blank.summary.unique_clients.change, "0%");
}

#[test]
fn present_summary_compares_figure_by_figure() {
    let s = present_summary(&summary(15_000, 3, 1), &summary(10_000, 4, 0));
    assert_eq!(s.revenue.value, "R$ 150.00");
    assert_eq!(s.revenue.change, "+50.0%");
    assert_eq!(s.sales_count.value, "3");
    assert_eq!(s.sales_count.change, "-25.0%");
    assert_eq!(s.average_ticket.value, "R$ 50.00");
    assert_eq!(s.average_ticket.change, "+100.0%");
    assert_eq!(s.unique_clients.value, "1");
    assert_eq!(s.unique_clients.change, "+100%");
    let fine = present_summary(&summary(3_003, 3, 3), &summary(3_000, 3, 3));
    assert_eq!(fine.average_ticket.value, "R$ 10.01");
    assert_eq!(fine.average_ticket.change, "+0.1%");
    assert_eq!(fine.revenue.change, "+0.1%");
}

#[test]
fn plan_dashboard_splits_today_and_yesterday() {
    let now = Instant::from_parts(MARCH_FIRST + 37_800, 7).unwrap();
    let q = plan_dashboard(now);
    assert_eq!(q.now, now);
    assert_eq!(q.today.start(), bound(MARCH_FIRST, 0));
    assert_eq!(q.today.end(), bound(MARCH_FIRST + 37_800, 7));
    assert_eq!(q.yesterday.start(), bound(MARCH_FIRST - DAY, 0));
    assert_eq!(q.yesterday.end(), bound(MARCH_FIRST - 1, 999_999_999));
    assert_eq!(q.expiry.start(), bound(MARCH_FIRST + 37_800, 7));
    assert_eq!(q.expiry.end(), bound(MARCH_FIRST + 37_800 + 30 * DAY, 7));
    assert!(!q.yesterday.contains(&at(MARCH_FIRST)));
    assert!(q.today.contains(&at(MARCH_FIRST)));
}

#[test]
fn plan_dashboard_at_the_first_and_last_instant() {
    let first = plan_dashboard(at(MIN_SECS));
    assert_eq!(first.today.start().secs(), MIN_SECS);
    assert_eq!(first.today.end().secs(), MIN_SECS);
    assert_eq!(first.yesterday.start().secs(), MIN_SECS - DAY);
    assert_eq!(first.yesterday.end().secs(), MIN_SECS - 1);
    assert_eq!(first.yesterday.end().subsec_nanos(), 999_999_999);
    let last = plan_dashboard(at(MAX_SECS));
    assert_eq!(last.today.start().secs(), MAX_SECS - DAY + 1);
    assert_eq!(last.expiry.end().secs(), MAX_SECS + 30 * DAY);
}

#[test]
fn dashboard_of_today_against_yesterday() {
    let today = march_first_sales();
    let yesterday = vec![
        sale(10, 1, 8_000, "PIX", MARCH_FIRST - 10),
        sale(11, 1, 6_000, "PIX", MARCH_FIRST - 20),
        sale(12, 1, 0, "PIX", MARCH_FIRST - 30),
        sale(13, 1, 0, "PIX", MARCH_FIRST - 40),
    ];
    let d = dashboard(&today, &yesterday, 37, Alerts { low_stock: 12, expiring: 3 });
    assert_eq!(d.revenue, "R$ 175.00");
    assert_eq!(d.revenue_change, "+25.0%");
    assert_eq!(d.sales_count, 3);
    assert_eq!(d.sales_change, "-1");
    assert_eq!(d.client_count, 37);
    assert_eq!(d.client_change, "+37");
    assert_eq!(d.alerts, 15);
}

#[test]
fn dashboard_of_first_day_ever() {
    let d = dashboard(&march_first_sales(), &Vec::new(), 0, Alerts { low_stock: 0, expiring: 0 });
    assert_eq!(d.revenue_change, "+100%");
    assert_eq!(d.sales_change, "+3");
    assert_eq!(d.client_change, "+0");
    assert_eq!(d.alerts, 0);
    let idle = dashboard(&Vec::new(), &Vec::new(), 2, Alerts { low_stock: 1, expiring: 0 });
    assert_eq!(idle.revenue, "R$ 0.00");
    assert_eq!(idle.revenue_change, "0%");
    assert_eq!(idle.sales_count, 0);
    assert_eq!(idle.sales_change, "+0");
    assert_eq!(idle.alerts, 1);
}

#[test]
fn storage_failure_is_passed_on_verbatim() {
    let failed: Result<Vec<Sale>, String> = Err("database is locked".to_string());
    assert_eq!(reading(failed), Err(ReportError::StorageUnavailable("database is locked".to_string())));
    let read: Result<u64, String> = Ok(3);
    assert_eq!(reading(read), Ok(3));
}
