//! Display names for the clients that rows refer to. A client may be gone
//! while rows that name it remain: such a row gets a fixed placeholder.

use crate::instant::Instant;
use crate::records::{Client, ClientGallon, Sale};
use std::collections::{HashMap, HashSet};
use vstd::prelude::*;
use vstd::string::*;

verus! {

/// The name shown on a sale whose client is gone.
pub open spec fn removed_client_text() -> Seq<char> {
    "Cliente removido"@
}

/// The name shown on a gallon whose client is not known.
pub open spec fn unknown_client_text() -> Seq<char> {
    "Cliente desconhecido"@
}

/// The names of the clients by their ids. Where an id occurs more than once
/// the last one counts.
pub open spec fn directory(clients: Seq<Client>) -> Map<i32, Seq<char>>
    decreases clients.len(),
{
    if clients.len() == 0 {
        Map::empty()
    } else {
        directory(clients.drop_last()).insert(clients.last().id, clients.last().name@)
    }
}

/// The name to show for the client `id`: the client's own where the directory
/// has one, else the placeholder.
pub open spec fn resolved_name(clients: Seq<Client>, id: i32, placeholder: Seq<char>) -> Seq<char> {
    if directory(clients).contains_key(id) {
        directory(clients)[id]
    } else {
        placeholder
    }
}

/// An id that no client has resolves to the placeholder.
pub proof fn law_missing_client_gets_placeholder(
    clients: Seq<Client>,
    id: i32,
    placeholder: Seq<char>,
)
    requires
        forall|k: int| 0 <= k < clients.len() ==> (#[trigger] clients[k]).id != id,
    ensures
        resolved_name(clients, id, placeholder) == placeholder,
    decreases clients.len(),
{
    if clients.len() > 0 {
        let rest = clients.drop_last();
        assert forall|k: int| 0 <= k < rest.len() implies (#[trigger] rest[k]).id != id by {
            assert(rest[k] == clients[k]);
        }
        law_missing_client_gets_placeholder(rest, id, placeholder);
        assert(clients.last() == clients[clients.len() - 1]);
    }
}

/// A client whose id no later client shares resolves to its own name.
pub proof fn law_listed_client_gets_own_name(
    clients: Seq<Client>,
    k: int,
    placeholder: Seq<char>,
)
    requires
        0 <= k < clients.len(),
        forall|j: int| k < j < clients.len() ==> (#[trigger] clients[j]).id != clients[k].id,
    ensures
        resolved_name(clients, clients[k].id, placeholder) == clients[k].name@,
    decreases clients.len(),
{
    if k < clients.len() - 1 {
        let rest = clients.drop_last();
        assert(rest[k] == clients[k]);
        assert forall|j: int| k < j < rest.len() implies (#[trigger] rest[j]).id
            != rest[k].id by {
            assert(rest[j] == clients[j]);
        }
        law_listed_client_gets_own_name(rest, k, placeholder);
        assert(clients.last() == clients[clients.len() - 1]);
    }
}

/// The ids in the order in which each first appears, each once.
pub open spec fn first_seen(ids: Seq<i32>) -> Seq<i32>
    decreases ids.len(),
{
    if ids.len() == 0 {
        Seq::empty()
    } else {
        let earlier = first_seen(ids.drop_last());
        if earlier.contains(ids.last()) {
            earlier
        } else {
            earlier.push(ids.last())
        }
    }
}

/// The clients that the sales name, in the order of the sales.
pub open spec fn sale_client_ids(sales: Seq<Sale>) -> Seq<i32> {
    sales.map_values(|s: Sale| s.client_id)
}

/// The clients that the gallons name, in the order of the gallons.
pub open spec fn gallon_client_ids(gallons: Seq<ClientGallon>) -> Seq<i32> {
    gallons.map_values(|g: ClientGallon| g.client_id)
}

/// Drops every id that has appeared before.
pub fn distinct_ids(ids: &Vec<i32>) -> (r: Vec<i32>)
    ensures
        r@ == first_seen(ids@),
{
    broadcast use vstd::std_specs::hash::group_hash_axioms;

    let mut out: Vec<i32> = Vec::new();
    let mut seen: HashSet<i32> = HashSet::new();
    let mut i: usize = 0;
    assert(ids@.take(0) =~= Seq::<i32>::empty());
    assert(out@.to_set() =~= Set::<i32>::empty());
    while i < ids.len()
        invariant
            i <= ids@.len(),
            out@ == first_seen(ids@.take(i as int)),
            seen@ == out@.to_set(),
        decreases ids@.len() - i,
    {
        let id: i32 = ids[i];
        proof {
            assert(ids@.take(i + 1).drop_last() =~= ids@.take(i as int));
            assert(ids@.take(i + 1).last() == id);
            out@.lemma_push_to_set_commute(id);
        }
        if seen.insert(id) {
            out.push(id);
        }
        i = i + 1;
    }
    assert(ids@.take(ids@.len() as int) =~= ids@);
    out
}

/// The clients to fetch for a list of sales: each client that a sale names,
/// once, in the order of first appearance.
pub fn sale_clients(sales: &Vec<Sale>) -> (r: Vec<i32>)
    ensures
        r@ == first_seen(sale_client_ids(sales@)),
{
    let mut ids: Vec<i32> = Vec::new();
    let mut i: usize = 0;
    while i < sales.len()
        invariant
            i <= sales@.len(),
            ids@ == sale_client_ids(sales@.take(i as int)),
        decreases sales@.len() - i,
    {
        ids.push(sales[i].client_id);
        assert(sale_client_ids(sales@.take(i + 1)) =~= sale_client_ids(sales@.take(i as int)).push(
            sales@[i as int].client_id,
        ));
        i = i + 1;
    }
    assert(sales@.take(sales@.len() as int) =~= sales@);
    distinct_ids(&ids)
}

/// The clients to fetch for a list of gallons: each client that a gallon
/// names, once, in the order of first appearance.
pub fn gallon_clients(gallons: &Vec<ClientGallon>) -> (r: Vec<i32>)
    ensures
        r@ == first_seen(gallon_client_ids(gallons@)),
{
    let mut ids: Vec<i32> = Vec::new();
    let mut i: usize = 0;
    while i < gallons.len()
        invariant
            i <= gallons@.len(),
            ids@ == gallon_client_ids(gallons@.take(i as int)),
        decreases gallons@.len() - i,
    {
        ids.push(gallons[i].client_id);
        assert(gallon_client_ids(gallons@.take(i + 1)) =~= gallon_client_ids(
            gallons@.take(i as int),
        ).push(gallons@[i as int].client_id));
        i = i + 1;
    }
    assert(gallons@.take(gallons@.len() as int) =~= gallons@);
    distinct_ids(&ids)
}

/// A sale with the name of its client.
#[derive(Clone, Debug, PartialEq, Eq)]
pub struct NamedSale {
    pub id: i32,
    pub client_name: String,
    pub items: String,
    pub total_cents: u64,
    pub payment_method: String,
    pub created_at: Instant,
}

/// A gallon with the name of its client.
#[derive(Clone, Debug, PartialEq, Eq)]
pub struct NamedGallon {
    pub id: i32,
    pub client_name: String,
    pub brand: String,
    pub expiration_date: Instant,
}

impl NamedSale {
    /// This is `sale` with the name that `clients` gives its client.
    pub open spec fn names(self, sale: Sale, clients: Seq<Client>) -> bool {
        &&& self.id == sale.id
        &&& self.client_name@ == resolved_name(clients, sale.client_id, removed_client_text())
        &&& self.items@ == sale.items@
        &&& self.total_cents == sale.total_cents
        &&& self.payment_method@ == sale.payment_method@
        &&& self.created_at == sale.created_at
    }
}

impl NamedGallon {
    /// This is `gallon` with the name that `clients` gives its client.
    pub open spec fn names(self, gallon: ClientGallon, clients: Seq<Client>) -> bool {
        &&& self.id == gallon.id
        &&& self.client_name@ == resolved_name(clients, gallon.client_id, unknown_client_text())
        &&& self.brand@ == gallon.brand@
        &&& self.expiration_date == gallon.expiration_date
    }
}

/// The names of a batch of clients, ready for lookup by id.
pub struct ClientDirectory {
    names: HashMap<i32, String>,
}

impl ClientDirectory {
    /// The names by id, as texts.
    pub closed spec fn entries(&self) -> Map<i32, Seq<char>> {
        Map::new(|id: i32| self.names@.contains_key(id), |id: i32| self.names@[id]@)
    }

    /// Reads a batch of clients into a directory.
    pub fn build(clients: &Vec<Client>) -> (r: ClientDirectory)
        ensures
            r.entries() == directory(clients@),
    {
        broadcast use vstd::std_specs::hash::group_hash_axioms;

        let mut names: HashMap<i32, String> = HashMap::new();
        let mut i: usize = 0;
        assert(clients@.take(0) =~= Seq::<Client>::empty());
        while i < clients.len()
            invariant
                i <= clients@.len(),
                forall|id: i32|
                    names@.contains_key(id) == directory(clients@.take(i as int)).contains_key(id),
                forall|id: i32|
                    names@.contains_key(id) ==> names@[id]@ == directory(
                        clients@.take(i as int),
                    )[id],
            decreases clients@.len() - i,
        {
            let client = &clients[i];
            proof {
                assert(clients@.take(i + 1).drop_last() =~= clients@.take(i as int));
                assert(clients@.take(i + 1).last() == *client);
            }
            names.insert(client.id, client.name.clone());
            i = i + 1;
        }
        assert(clients@.take(clients@.len() as int) =~= clients@);
        let r = ClientDirectory { names };
        assert(r.entries() =~= directory(clients@));
        r
    }

    /// The name to show for the client `id`: the client's own, or the
    /// placeholder where the directory has none.
    pub fn resolve(&self, id: i32, placeholder: &str) -> (r: String)
        ensures
            r@ == if self.entries().contains_key(id) {
                self.entries()[id]
            } else {
                placeholder@
            },
    {
        broadcast use vstd::std_specs::hash::group_hash_axioms;

        match self.names.get(&id) {
            Some(name) => name.clone(),
            None => String::from_str(placeholder),
        }
    }
}

/// Names the client of each sale, in the order of the sales. A sale whose
/// client is not among `clients` shows `Cliente removido`; that is no failure.
pub fn name_sales(sales: &Vec<Sale>, clients: &Vec<Client>) -> (r: Vec<NamedSale>)
    ensures
        r@.len() == sales@.len(),
        forall|i: int| 0 <= i < sales@.len() ==> (#[trigger] r@[i]).names(sales@[i], clients@),
{
    let book = ClientDirectory::build(clients);
    let mut out: Vec<NamedSale> = Vec::new();
    let mut i: usize = 0;
    while i < sales.len()
        invariant
            i <= sales@.len(),
            out@.len() == i,
            book.entries() == directory(clients@),
            forall|k: int| 0 <= k < i ==> (#[trigger] out@[k]).names(sales@[k], clients@),
        decreases sales@.len() - i,
    {
        let sale = &sales[i];
        let named = NamedSale {
            id: sale.id,
            client_name: book.resolve(sale.client_id, "Cliente removido"),
            items: sale.items.clone(),
            total_cents: sale.total_cents,
            payment_method: sale.payment_method.clone(),
            created_at: sale.created_at,
        };
        out.push(named);
        i = i + 1;
    }
    out
}

/// Names the client of each gallon, in the order of the gallons. A gallon
/// whose client is not among `clients` shows `Cliente desconhecido`.
pub fn name_gallons(gallons: &Vec<ClientGallon>, clients: &Vec<Client>) -> (r: Vec<NamedGallon>)
    ensures
        r@.len() == gallons@.len(),
        forall|i: int|
            0 <= i < gallons@.len() ==> (#[trigger] r@[i]).names(gallons@[i], clients@),
{
    let book = ClientDirectory::build(clients);
    let mut out: Vec<NamedGallon> = Vec::new();
    let mut i: usize = 0;
    while i < gallons.len()
        invariant
            i <= gallons@.len(),
            out@.len() == i,
            book.entries() == directory(clients@),
            forall|k: int| 0 <= k < i ==> (#[trigger] out@[k]).names(gallons@[k], clients@),
        decreases gallons@.len() - i,
    {
        let gallon = &gallons[i];
        let named = NamedGallon {
            id: gallon.id,
            client_name: book.resolve(gallon.client_id, "Cliente desconhecido"),
            brand: gallon.brand.clone(),
            expiration_date: gallon.expiration_date,
        };
        out.push(named);
        i = i + 1;
    }
    out
}

} // verus!
