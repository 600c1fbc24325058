//! The summary of a set of sales: revenue, count, average ticket and the
//! number of distinct clients.

use crate::compare::{ratio_change, ratio_change_text, round_half_even};
use crate::records::Sale;
use std::collections::HashSet;
use vstd::prelude::*;

verus! {

/// The sum of the totals of the sales, in cents.
pub open spec fn total_revenue(sales: Seq<Sale>) -> nat
    decreases sales.len(),
{
    if sales.len() == 0 {
        0
    } else {
        total_revenue(sales.drop_last()) + sales.last().total_cents as nat
    }
}

/// The clients that the sales name, each once.
pub open spec fn distinct_clients(sales: Seq<Sale>) -> Set<i32> {
    sales.map_values(|s: Sale| s.client_id).to_set()
}

/// Revenue per sale in cents, rounded to the nearest cent with an exact half
/// going to the even cent; zero where there is no sale.
pub open spec fn average_ticket(revenue: nat, count: nat) -> nat {
    if count > 0 {
        round_half_even(revenue, count)
    } else {
        0
    }
}

/// The percentage delta of the average ticket as it is displayed: from
/// `previous_revenue / previous_count` to `current_revenue / current_count`,
/// both taken exactly, with the average of no sales counting as zero. From a
/// previous average of zero a rise shows as `+100%` and no rise as `0%`.
pub open spec fn average_change_text(
    current_revenue: nat,
    current_count: nat,
    previous_revenue: nat,
    previous_count: nat,
    places: nat,
) -> Seq<char> {
    ratio_change_text(
        if current_count == 0 { 0 } else { current_revenue },
        if current_count == 0 { 1 } else { current_count },
        if previous_count == 0 { 0 } else { previous_revenue },
        if previous_count == 0 { 1 } else { previous_count },
        places,
    )
}

/// What a set of sales comes to: its revenue in cents, the number of sales,
/// and the number of distinct clients. The revenue is no more than that many
/// sales can add up to, and there are no more clients than sales.
#[derive(Clone, Copy, Debug, PartialEq, Eq)]
pub struct SalesSummary {
    revenue_cents: u128,
    sales_count: u64,
    unique_clients: u64,
}

impl SalesSummary {
    /// The revenue in cents.
    pub closed spec fn spec_revenue_cents(&self) -> u128 {
        self.revenue_cents
    }

    /// The number of sales.
    pub closed spec fn spec_sales_count(&self) -> u64 {
        self.sales_count
    }

    /// The number of distinct clients.
    pub closed spec fn spec_unique_clients(&self) -> u64 {
        self.unique_clients
    }

    /// The average ticket in cents, rounded to the nearest cent.
    pub open spec fn spec_average_ticket_cents(&self) -> nat {
        average_ticket(self.spec_revenue_cents() as nat, self.spec_sales_count() as nat)
    }

    /// Whether three figures can be those of a set of sales.
    pub open spec fn possible(revenue_cents: nat, sales_count: nat, unique_clients: nat) -> bool {
        revenue_cents <= sales_count * u64::MAX && unique_clients <= sales_count
    }

    /// The figures can be those of a set of sales.
    #[verifier::type_invariant]
    pub open spec fn wf(self) -> bool {
        SalesSummary::possible(
            self.spec_revenue_cents() as nat,
            self.spec_sales_count() as nat,
            self.spec_unique_clients() as nat,
        )
    }

    /// Each figure is the one that `sales` comes to.
    pub open spec fn summarizes(self, sales: Seq<Sale>) -> bool {
        &&& self.spec_revenue_cents() == total_revenue(sales)
        &&& self.spec_sales_count() == sales.len()
        &&& self.spec_unique_clients() == distinct_clients(sales).len()
    }

    /// The summary with these figures, if they can be those of a set of sales.
    pub fn of(revenue_cents: u128, sales_count: u64, unique_clients: u64) -> (r: Option<
        SalesSummary,
    >)
        ensures
            r is Some == SalesSummary::possible(
                revenue_cents as nat,
                sales_count as nat,
                unique_clients as nat,
            ),
            r matches Some(s) ==> {
                &&& s.wf()
                &&& s.spec_revenue_cents() == revenue_cents
                &&& s.spec_sales_count() == sales_count
                &&& s.spec_unique_clients() == unique_clients
            },
    {
        assert(sales_count * u64::MAX <= u64::MAX * u64::MAX) by (nonlinear_arith)
            requires
                sales_count <= u64::MAX,
        ;
        if revenue_cents <= sales_count as u128 * u64::MAX as u128 && unique_clients
            <= sales_count {
            Some(SalesSummary { revenue_cents, sales_count, unique_clients })
        } else {
            None
        }
    }

    /// The revenue in cents.
    #[verifier::when_used_as_spec(spec_revenue_cents)]
    pub fn revenue_cents(&self) -> (r: u128)
        ensures
            r == self.spec_revenue_cents(),
            self.wf(),
    {
        proof {
            use_type_invariant(self);
        }
        self.revenue_cents
    }

    /// The number of sales.
    #[verifier::when_used_as_spec(spec_sales_count)]
    pub fn sales_count(&self) -> (r: u64)
        ensures
            r == self.spec_sales_count(),
            self.wf(),
    {
        proof {
            use_type_invariant(self);
        }
        self.sales_count
    }

    /// The number of distinct clients, never more than the number of sales.
    #[verifier::when_used_as_spec(spec_unique_clients)]
    pub fn unique_clients(&self) -> (r: u64)
        ensures
            r == self.spec_unique_clients(),
            r <= self.spec_sales_count(),
            self.wf(),
    {
        proof {
            use_type_invariant(self);
        }
        self.unique_clients
    }

    /// The average ticket in cents: revenue per sale, rounded to the nearest
    /// cent with an exact half going to the even cent; zero without sales.
    pub fn average_ticket_cents(&self) -> (r: u128)
        ensures
            r == self.spec_average_ticket_cents(),
    {
        proof {
            use_type_invariant(self);
            assert(self.sales_count * u64::MAX <= u64::MAX * u64::MAX) by (nonlinear_arith)
                requires
                    self.sales_count <= u64::MAX,
            ;
        }
        if self.sales_count == 0 {
            0
        } else {
            let size: u128 = self.sales_count as u128;
            let whole: u128 = self.revenue_cents / size;
            let rest: u128 = self.revenue_cents % size;
            if 2 * rest < size {
                whole
            } else if 2 * rest > size {
                whole + 1
            } else if whole % 2 == 0 {
                whole
            } else {
                whole + 1
            }
        }
    }

    /// The percentage delta of the average ticket from `previous` to this
    /// summary with `places` decimal places. It is taken from the revenue and
    /// the count of both, not from the averages as rounded for display.
    pub fn average_change(&self, previous: &SalesSummary, places: u8) -> (r: String)
        ensures
            r@ == average_change_text(
                self.spec_revenue_cents() as nat,
                self.spec_sales_count() as nat,
                previous.spec_revenue_cents() as nat,
                previous.spec_sales_count() as nat,
                places as nat,
            ),
    {
        proof {
            use_type_invariant(self);
            use_type_invariant(previous);
        }
        let cd: u64 = if self.sales_count == 0 { 1 } else { self.sales_count };
        let pd: u64 = if previous.sales_count == 0 { 1 } else { previous.sales_count };
        ratio_change(self.revenue_cents, cd, previous.revenue_cents, pd, places)
    }
}

/// No sale adds more than the largest amount that a sale can hold.
pub proof fn lemma_revenue_bounded(sales: Seq<Sale>)
    ensures
        total_revenue(sales) <= sales.len() * u64::MAX,
    decreases sales.len(),
{
    if sales.len() > 0 {
        lemma_revenue_bounded(sales.drop_last());
        assert((sales.len() - 1) * u64::MAX + u64::MAX == sales.len() * u64::MAX)
            by (nonlinear_arith);
    }
}

/// One more sale adds its total to the revenue.
pub proof fn lemma_revenue_push(sales: Seq<Sale>, sale: Sale)
    ensures
        total_revenue(sales.push(sale)) == total_revenue(sales) + sale.total_cents,
{
    assert(sales.push(sale).drop_last() =~= sales);
}

/// There are never more distinct clients than sales.
pub proof fn law_unique_clients_at_most_sales(sales: Seq<Sale>)
    ensures
        distinct_clients(sales).finite(),
        distinct_clients(sales).len() <= sales.len(),
{
    let ids = sales.map_values(|s: Sale| s.client_id);
    ids.lemma_cardinality_of_set();
    vstd::seq_lib::seq_to_set_is_finite(ids);
}

/// A set of no sales comes to nothing: no revenue, no ticket, no client.
pub proof fn law_empty_summary(summary: SalesSummary)
    requires
        summary.summarizes(Seq::<Sale>::empty()),
    ensures
        summary.spec_revenue_cents() == 0,
        summary.spec_sales_count() == 0,
        summary.spec_average_ticket_cents() == 0,
        summary.spec_unique_clients() == 0,
{
    assert(distinct_clients(Seq::<Sale>::empty()) =~= Set::<i32>::empty());
}

/// Sums up a set of sales. The same figures come out for any window, so a
/// current and a previous window are measured alike.
pub fn summarize(sales: &Vec<Sale>) -> (r: SalesSummary)
    ensures
        r.summarizes(sales@),
        r.wf(),
{
    broadcast use vstd::std_specs::hash::group_hash_axioms;

    let mut revenue: u128 = 0;
    let mut seen: HashSet<i32> = HashSet::new();
    let mut i: usize = 0;
    assert(sales@.take(0) =~= Seq::<Sale>::empty());
    assert(distinct_clients(Seq::<Sale>::empty()) =~= Set::<i32>::empty());
    while i < sales.len()
        invariant
            i <= sales@.len(),
            revenue == total_revenue(sales@.take(i as int)),
            seen@ == distinct_clients(sales@.take(i as int)),
        decreases sales@.len() - i,
    {
        let ghost before = sales@.take(i as int);
        let sale = &sales[i];
        proof {
            assert(sales@.take(i + 1) =~= before.push(*sale));
            lemma_revenue_push(before, *sale);
            lemma_revenue_bounded(before.push(*sale));
            assert((i + 1) * u64::MAX <= usize::MAX * u64::MAX) by (nonlinear_arith)
                requires
                    i + 1 <= usize::MAX,
            ;
            let ids = before.map_values(|s: Sale| s.client_id);
            assert(before.push(*sale).map_values(|s: Sale| s.client_id) =~= ids.push(
                sale.client_id,
            ));
            ids.lemma_push_to_set_commute(sale.client_id);
        }
        revenue = revenue + sale.total_cents as u128;
        seen.insert(sale.client_id);
        i = i + 1;
    }
    assert(sales@.take(sales@.len() as int) =~= sales@);
    proof {
        law_unique_clients_at_most_sales(sales@);
        lemma_revenue_bounded(sales@);
        assert(sales@.len() * u64::MAX <= usize::MAX * u64::MAX) by (nonlinear_arith)
            requires
                sales@.len() <= usize::MAX,
        ;
    }
    SalesSummary {
        revenue_cents: revenue,
        sales_count: sales.len() as u64,
        unique_clients: seen.len() as u64,
    }
}

} // verus!
