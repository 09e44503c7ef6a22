//! The service's state and what it answers to each request: registering a
//! client, crediting or debiting a balance, reporting a client's balance,
//! and the balances that a store writes out and then clears.

use vstd::prelude::*;
use std::collections::HashMap;
use crate::client_model::{
    all_identified, first_index_of_id, has_document, scan_for_id_ok, has_id, is_first_free_id, next_id_after,
    some_id_free, Client, ClientView,
};
use vstd::string::*;
use crate::balance_files::{decimal_text, push_char, push_decimal};
use crate::money::{decimal_to_string, display_text, Money};
use crate::transaction::{result_view, transaction_outcome, TransactionData};

verus! {

/// No two clients share an identifier.
pub open spec fn unique_ids(clients: Seq<Client>) -> bool {
    forall|i: int, j: int|
        0 <= i < clients.len() && 0 <= j < clients.len() && i != j ==> (#[trigger] clients[i])@.id
            != (#[trigger] clients[j])@.id
}

/// No two clients share a document number.
pub open spec fn unique_documents(clients: Seq<Client>) -> bool {
    forall|i: int, j: int|
        0 <= i < clients.len() && 0 <= j < clients.len() && i != j ==> (#[trigger] clients[i])@.document_number
            != (#[trigger] clients[j])@.document_number
}

/// The state of the service: the balance of each client by identifier, the
/// registered clients, and the counter from which identifiers are taken.
pub struct AppState {
    pub balances: HashMap<u16, Money>,
    pub transaction_data: HashMap<u16, Money>,
    pub clients: Vec<Client>,
    pub next_id: u16,
}

/// What registering a client answers.
#[derive(Clone, Copy, Debug, PartialEq, Eq, Structural)]
pub enum NewClientReply {
    /// The client was registered under this identifier.
    Created { id: u16 },
    /// A client with the same document number is registered already.
    DocumentExists,
}

/// What a credit or debit request answers.
#[derive(Clone, Copy, Debug)]
pub enum TransactionReply {
    /// The client's balance is now `new_balance`.
    Completed { user_id: u16, new_balance: Money },
    /// The request was refused, whatever the reason.
    Rejected,
}

/// What a balance request answers: the balance of the client, if it has
/// one, and the client's data, if there is such a client.
#[derive(Debug)]
pub struct BalanceReport {
    pub client_id: u16,
    pub balance: Option<Money>,
    pub client: Option<Client>,
}

/// The line of a stored-balance file for one balance: the identifier, a
/// space, and the balance as `Decimal` writes it.
pub open spec fn balance_line(id: u16, balance: Money) -> Seq<char> {
    decimal_text(id as nat) + seq![' '] + display_text(balance)
}

/// A balance report writes a client's balance as `Decimal` writes it, sign
/// included.
pub proof fn lemma_report_writes_the_balance(b: Money)
    ensures
        balance_report_text(Some(b)) == display_text(b),
        b.negative ==> balance_report_text(Some(b))[0] == '-',
{
}

/// The lines of a stored-balance file, one per entry, in order.
pub fn balance_lines(entries: &Vec<(u16, Money)>) -> (r: Vec<String>)
    requires
        forall|i: int| 0 <= i < entries@.len() ==> (#[trigger] entries@[i]).1.wf(),
    ensures
        r@.len() == entries@.len(),
        forall|i: int| 0 <= i < r@.len() ==> (#[trigger] r@[i])@ == balance_line(entries@[i].0, entries@[i].1),
        forall|i: int|
            0 <= i < r@.len() ==> (#[trigger] r@[i])@ == decimal_text(entries@[i].0 as nat) + seq![' ']
                + display_text(entries@[i].1),
{
    let mut lines: Vec<String> = Vec::new();
    let mut i: usize = 0;
    while i < entries.len()
        invariant
            i <= entries@.len(),
            lines@.len() == i,
            forall|j: int| 0 <= j < entries@.len() ==> (#[trigger] entries@[j]).1.wf(),
            forall|j: int| 0 <= j < i ==> (#[trigger] lines@[j])@ == balance_line(entries@[j].0, entries@[j].1),
        decreases entries.len() - i,
    {
        let (id, balance) = entries[i];
        assert(entries@[i as int].1.wf());
        let mut line = String::new();
        push_decimal(&mut line, id as u32);
        push_char(&mut line, ' ');
        let text = decimal_to_string(balance);
        line.append(text.as_str());
        assert(line@ =~= balance_line(id, balance));
        lines.push(line);
        i = i + 1;
    }
    lines
}

impl NewClientReply {
    /// The text of the answer.
    pub fn body(&self) -> (r: String)
        ensures
            r@ == match *self {
                NewClientReply::Created { id } => "ID del nuevo cliente: "@ + decimal_text(id as nat),
                NewClientReply::DocumentExists => "El número de documento ya existe"@,
            },
    {
        match self {
            NewClientReply::Created { id } => {
                let mut s = String::from_str("ID del nuevo cliente: ");
                push_decimal(&mut s, *id as u32);
                s
            },
            NewClientReply::DocumentExists => String::from_str("El número de documento ya existe"),
        }
    }

    /// The HTTP status of the answer: 201 Created, or 400 Bad Request.
    pub fn status(&self) -> (r: u16)
        ensures
            r == (if *self is Created { 201u16 } else { 400u16 }),
    {
        match self {
            NewClientReply::Created { .. } => 201,
            NewClientReply::DocumentExists => 400,
        }
    }
}

impl TransactionReply {
    /// The text of the answer.
    pub fn body(&self) -> (r: String)
        requires
            *self matches TransactionReply::Completed { new_balance, .. } ==> new_balance.wf(),
        ensures
            r@ == match *self {
                TransactionReply::Completed { user_id, new_balance } => "Transacción exitosa user_id "@
                    + decimal_text(user_id as nat) + ": new_balance "@ + display_text(new_balance),
                TransactionReply::Rejected => "El ID o valor ingresado no es válido"@,
            },
    {
        match self {
            TransactionReply::Completed { user_id, new_balance } => {
                let mut s = String::from_str("Transacción exitosa user_id ");
                push_decimal(&mut s, *user_id as u32);
                s.append(": new_balance ");
                let text = decimal_to_string(*new_balance);
                s.append(text.as_str());
                s
            },
            TransactionReply::Rejected => String::from_str("El ID o valor ingresado no es válido"),
        }
    }

    /// The HTTP status of the answer: 200 OK, or 400 Bad Request.
    pub fn status(&self) -> (r: u16)
        ensures
            r == (if *self is Completed { 200u16 } else { 400u16 }),
    {
        match self {
            TransactionReply::Completed { .. } => 200,
            TransactionReply::Rejected => 400,
        }
    }
}

/// A carried-out request is answered as completed with the client and its
/// new balance; a refused one, whatever the error, as rejected.
pub proof fn lemma_reply_of_answer(answer: Result<(u16, Money), Seq<char>>)
    ensures
        answer matches Ok((id, b)) ==> transaction_reply_of(answer) == (TransactionReply::Completed {
            user_id: id,
            new_balance: b,
        }),
        answer is Err ==> transaction_reply_of(answer) == TransactionReply::Rejected,
{
}

/// The text of a balance as a balance report writes it: the balance, or
/// a note that the client was not found.
pub open spec fn balance_report_text(balance: Option<Money>) -> Seq<char> {
    match balance {
        Some(b) => display_text(b),
        None => "Cliente no encontrado"@,
    }
}

impl BalanceReport {
    /// The text of the answer, with the client's data written as JSON by the
    /// caller (`client_json`).
    pub fn body(&self, client_json: &str) -> (r: String)
        requires
            self.balance matches Some(b) ==> b.wf(),
        ensures
            r@ == "Balance del cliente ID "@ + decimal_text(self.client_id as nat) + ": "@
                + balance_report_text(self.balance) + " \nDatos del cliente: "@ + client_json@,
            self.balance matches Some(b) ==> r@ == "Balance del cliente ID "@ + decimal_text(
                self.client_id as nat,
            ) + ": "@ + display_text(b) + " \nDatos del cliente: "@ + client_json@,
            self.balance is None ==> r@ == "Balance del cliente ID "@ + decimal_text(self.client_id as nat)
                + ": "@ + "Cliente no encontrado"@ + " \nDatos del cliente: "@ + client_json@,
    {
        let mut s = String::from_str("Balance del cliente ID ");
        push_decimal(&mut s, self.client_id as u32);
        s.append(": ");
        match self.balance {
            Some(b) => {
                let text = decimal_to_string(b);
                s.append(text.as_str());
            },
            None => {
                s.append("Cliente no encontrado");
            },
        }
        s.append(" \nDatos del cliente: ");
        s.append(client_json);
        s
    }

    /// The HTTP status of the answer: 200 OK, whether or not the client
    /// exists.
    pub fn status(&self) -> (r: u16)
        ensures
            r == 200,
    {
        200
    }
}

impl AppState {
    /// Every client has an identifier of its own and a document number of
    /// its own, the balances are those of exactly the registered clients,
    /// and each balance is a representable decimal.  A new state has it and
    /// every operation keeps it; no operation needs it.
    pub open spec fn wf(&self) -> bool {
        &&& all_identified(self.clients@)
        &&& unique_ids(self.clients@)
        &&& unique_documents(self.clients@)
        &&& forall|id: u16| #[trigger]
            self.balances@.contains_key(id) <==> has_id(self.clients@, id)
        &&& self.balances_valid()
    }

    /// Every balance is a representable decimal.
    pub open spec fn balances_valid(&self) -> bool {
        forall|id: u16| #[trigger]
            self.balances@.contains_key(id) ==> self.balances@[id].wf()
    }

    /// The state of a service just started: no clients, no balances, and
    /// identifiers taken from 1 on.
    pub fn new() -> (s: AppState)
        ensures
            s.wf(),
            s.clients@.len() == 0,
            s.balances@ == Map::<u16, Money>::empty(),
            s.transaction_data@ == Map::<u16, Money>::empty(),
            s.next_id == 1,
    {
        AppState {
            balances: HashMap::new(),
            transaction_data: HashMap::new(),
            clients: Vec::new(),
            next_id: 1,
        }
    }
}

/// Registers a client with the data of `client` (its identifier, if any, is
/// not used): refused where a client with the same document number is
/// registered already; otherwise the client gets the first free identifier
/// from the counter on and a zero balance, and is added after the others.
/// `None`, with the state unchanged, where every identifier is taken, so
/// that no identifier can ever be found.
pub fn new_client(client: &Client, data: &mut AppState) -> (r: Option<NewClientReply>)
    requires
        !has_document(old(data).clients@, client@.document_number) ==> all_identified(old(data).clients@),
    ensures
        old(data).wf() ==> final(data).wf(),
        old(data).balances_valid() ==> final(data).balances_valid(),
        final(data).transaction_data@ == old(data).transaction_data@,
        has_document(old(data).clients@, client@.document_number) ==> {
            &&& r == Some(NewClientReply::DocumentExists)
            &&& final(data).clients@ == old(data).clients@
            &&& final(data).balances@ == old(data).balances@
            &&& final(data).next_id == old(data).next_id
        },
        !has_document(old(data).clients@, client@.document_number) && !some_id_free(old(data).clients@) ==> {
            &&& r is None
            &&& final(data).clients@ == old(data).clients@
            &&& final(data).balances@ == old(data).balances@
            &&& final(data).next_id == old(data).next_id
        },
        !has_document(old(data).clients@, client@.document_number) && some_id_free(old(data).clients@) ==> {
            exists|id: u16| {
                &&& r == Some(NewClientReply::Created { id })
                &&& #[trigger] is_first_free_id(old(data).clients@, old(data).next_id, id)
                &&& final(data).next_id == next_id_after(id)
                &&& final(data).balances@ == old(data).balances@.insert(id, Money::spec_zero())
                &&& final(data).clients@.len() == old(data).clients@.len() + 1
                &&& final(data).clients@.take(old(data).clients@.len() as int) == old(data).clients@
                &&& final(data).clients@.last()@ == (ClientView { id: Some(id), ..client@ })
            }
        },
{
    if Client::dni_exists(client.document_number().to_owned(), &data.clients) {
        return Some(NewClientReply::DocumentExists);
    }
    if Client::ids_exhausted(&data.clients) {
        return None;
    }
    let ghost old_clients = data.clients@;
    let ghost old_wf = data.wf();
    let new_client = Client::new(
        client.client_name().to_owned(),
        client.birth_date(),
        client.document_number().to_owned(),
        client.country().to_owned(),
        &data.clients,
        &mut data.next_id,
    );
    let id = new_client.id();
    data.balances.insert(id, Money::zero());
    data.clients.push(new_client);
    proof {
        let cs = data.clients@;
        assert(cs.take(old_clients.len() as int) =~= old_clients);
        if old_wf {
            assert forall|i: int| 0 <= i < cs.len() implies (#[trigger] cs[i])@.id is Some by {
                if i < old_clients.len() {
                    assert(cs[i] == old_clients[i]);
                }
            }
            assert forall|i: int, j: int|
                0 <= i < cs.len() && 0 <= j < cs.len() && i != j implies (#[trigger] cs[i])@.id
                    != (#[trigger] cs[j])@.id by {
                if i < old_clients.len() && j < old_clients.len() {
                    assert(cs[i] == old_clients[i] && cs[j] == old_clients[j]);
                } else if i < old_clients.len() {
                    assert(cs[i] == old_clients[i]);
                    assert(old_clients[i]@.id != Some(id));
                } else {
                    assert(cs[j] == old_clients[j]);
                    assert(old_clients[j]@.id != Some(id));
                }
            }
            assert forall|i: int, j: int|
                0 <= i < cs.len() && 0 <= j < cs.len() && i != j implies (#[trigger] cs[i])@.document_number
                    != (#[trigger] cs[j])@.document_number by {
                if i < old_clients.len() && j < old_clients.len() {
                    assert(cs[i] == old_clients[i] && cs[j] == old_clients[j]);
                } else if i < old_clients.len() {
                    assert(cs[i] == old_clients[i]);
                } else {
                    assert(cs[j] == old_clients[j]);
                }
            }
            assert forall|v: u16| #[trigger] data.balances@.contains_key(v) <==> has_id(cs, v) by {
                if has_id(old_clients, v) {
                    let i = choose|i: int| 0 <= i < old_clients.len() && (#[trigger] old_clients[i])@.id == Some(v);
                    assert(cs[i] == old_clients[i]);
                }
                if has_id(cs, v) && v != id {
                    let i = choose|i: int| 0 <= i < cs.len() && (#[trigger] cs[i])@.id == Some(v);
                    assert(cs[i] == old_clients[i]);
                }
                if v == id {
                    assert(cs[old_clients.len() as int]@.id == Some(v));
                }
            }
        }
        assert(is_first_free_id(old_clients, old(data).next_id, id));
    }
    Some(NewClientReply::Created { id })
}

/// A registration takes its document number and its identifier: the client
/// added last carries them, so that registering the same document number
/// again is refused, and no later registration gets the same identifier.
pub proof fn lemma_registration_takes_document_and_id(
    before: Seq<Client>,
    after: Seq<Client>,
    client: ClientView,
    id: u16,
)
    requires
        after.len() == before.len() + 1,
        after.take(before.len() as int) == before,
        after.last()@ == (ClientView { id: Some(id), ..client }),
    ensures
        has_document(after, client.document_number),
        has_id(after, id),
        forall|i: int| 0 <= i < before.len() ==> #[trigger] after[i] == before[i],
{
    assert(after[after.len() - 1]@.document_number == client.document_number);
    assert(after[after.len() - 1]@.id == Some(id));
    assert forall|i: int| 0 <= i < before.len() implies #[trigger] after[i] == before[i] by {
        assert(after.take(before.len() as int)[i] == after[i]);
    }
}

/// The answer to a credit or debit result: the new balance, or a refusal
/// whatever the error.
pub open spec fn transaction_reply_of(answer: Result<(u16, Money), Seq<char>>) -> TransactionReply {
    match answer {
        Ok((user_id, new_balance)) => TransactionReply::Completed { user_id, new_balance },
        Err(_) => TransactionReply::Rejected,
    }
}

fn reply_to(r: Result<(u16, Money), String>) -> (reply: TransactionReply)
    ensures
        reply == transaction_reply_of(result_view(r)),
        r matches Ok((id, b)) ==> reply == (TransactionReply::Completed { user_id: id, new_balance: b }),
        r is Err ==> reply == TransactionReply::Rejected,
{
    match r {
        Ok((user_id, new_balance)) => TransactionReply::Completed { user_id, new_balance },
        Err(_) => TransactionReply::Rejected,
    }
}

/// Answers a credit request: the request is carried out as
/// `Client::credit_transaction` does, and any error is answered with a
/// refusal.  `None`, with the state unchanged, where the request cannot be
/// carried out (an amount that no decimal holds, or an overflowing balance).
pub fn new_credit_transaction(transaction_data: &TransactionData, data: &mut AppState) -> (r: Option<
    TransactionReply,
>)
    requires
        old(data).balances_valid(),
        transaction_data.wf(),
    ensures
        old(data).wf() ==> final(data).wf(),
        final(data).balances_valid(),
        final(data).clients@ == old(data).clients@,
        final(data).transaction_data@ == old(data).transaction_data@,
        final(data).next_id == old(data).next_id,
        match transaction_outcome(old(data).balances@, transaction_data.fields@, false) {
            None => r is None && final(data).balances@ == old(data).balances@,
            Some((answer, balances)) => r == Some(transaction_reply_of(answer))
                && final(data).balances@ == balances,
        },        match transaction_outcome(old(data).balances@, transaction_data.fields@, false) {
            Some((Ok((id, b)), _)) => r == Some(TransactionReply::Completed { user_id: id, new_balance: b }),
            Some((Err(_), _)) => r == Some(TransactionReply::Rejected),
            None => r is None,
        },
{
    if !Client::transaction_possible(transaction_data, data, false) {
        return None;
    }
    let r = Client::credit_transaction(transaction_data, data);
    Some(reply_to(r))
}

/// Answers a debit request, as `new_credit_transaction` does for a credit.
pub fn new_debit_transaction(transaction_data: &TransactionData, data: &mut AppState) -> (r: Option<
    TransactionReply,
>)
    requires
        old(data).balances_valid(),
        transaction_data.wf(),
    ensures
        old(data).wf() ==> final(data).wf(),
        final(data).balances_valid(),
        final(data).clients@ == old(data).clients@,
        final(data).transaction_data@ == old(data).transaction_data@,
        final(data).next_id == old(data).next_id,
        match transaction_outcome(old(data).balances@, transaction_data.fields@, true) {
            None => r is None && final(data).balances@ == old(data).balances@,
            Some((answer, balances)) => r == Some(transaction_reply_of(answer))
                && final(data).balances@ == balances,
        },        match transaction_outcome(old(data).balances@, transaction_data.fields@, true) {
            Some((Ok((id, b)), _)) => r == Some(TransactionReply::Completed { user_id: id, new_balance: b }),
            Some((Err(_), _)) => r == Some(TransactionReply::Rejected),
            None => r is None,
        },
{
    if !Client::transaction_possible(transaction_data, data, true) {
        return None;
    }
    let r = Client::debit_transaction(transaction_data, data);
    Some(reply_to(r))
}

/// Answers a balance request for `client_id`: the client's balance and
/// data where such a client is registered, neither where not.
pub fn client_balance(client_id: u16, data: &AppState) -> (r: BalanceReport)
    requires
        scan_for_id_ok(data.clients@, client_id),
    ensures
        r.client_id == client_id,
        r.balance == (if data.balances@.contains_key(client_id) {
            Some(data.balances@[client_id])
        } else {
            None
        }),
        match r.client {
            Some(c) => exists|i: int|
                first_index_of_id(data.clients@, client_id, i) && c@ == (#[trigger] data.clients@[i])@,
            None => !has_id(data.clients@, client_id),
        },
        data.wf() ==> (r.balance is Some <==> r.client is Some),
{
    let balance = match data.balances.get(&client_id) {
        Some(b) => Some(*b),
        None => None,
    };
    let client = Client::find_client_by_id(&data.clients, client_id);
    BalanceReport { client_id, balance, client }
}

impl AppState {
    /// Every balance, by increasing identifier; each balance once.
    pub fn balance_entries(&self) -> (r: Vec<(u16, Money)>)
        ensures
            forall|i: int, j: int| 0 <= i < j < r@.len() ==> (#[trigger] r@[i]).0 < (#[trigger] r@[j]).0,
            forall|i: int|
                0 <= i < r@.len() ==> {
                    &&& self.balances@.contains_key((#[trigger] r@[i]).0)
                    &&& r@[i].1 == self.balances@[r@[i].0]
                },
            forall|id: u16| #[trigger]
                self.balances@.contains_key(id) ==> exists|i: int| 0 <= i < r@.len() && (#[trigger] r@[i]).0 == id,
    {
        let mut entries: Vec<(u16, Money)> = Vec::new();
        let mut v: u32 = 0;
        while v < 0x1_0000
            invariant
                v <= 0x1_0000,
                forall|i: int| 0 <= i < entries@.len() ==> (#[trigger] entries@[i]).0 < v,
                forall|i: int, j: int|
                    0 <= i < j < entries@.len() ==> (#[trigger] entries@[i]).0 < (#[trigger] entries@[j]).0,
                forall|i: int|
                    0 <= i < entries@.len() ==> {
                        &&& self.balances@.contains_key((#[trigger] entries@[i]).0)
                        &&& entries@[i].1 == self.balances@[entries@[i].0]
                    },
                forall|id: u16|
                    id < v && #[trigger] self.balances@.contains_key(id) ==> exists|i: int|
                        0 <= i < entries@.len() && (#[trigger] entries@[i]).0 == id,
            decreases 0x1_0000 - v,
        {
            let id = v as u16;
            match self.balances.get(&id) {
                Some(b) => {
                    let ghost before = entries@;
                    entries.push((id, *b));
                    assert forall|k: u16|
                        k < v + 1 && #[trigger] self.balances@.contains_key(k) implies exists|i: int|
                            0 <= i < entries@.len() && (#[trigger] entries@[i]).0 == k by {
                        if k < v {
                            let i = choose|i: int| 0 <= i < before.len() && (#[trigger] before[i]).0 == k;
                            assert(entries@[i] == before[i]);
                        } else {
                            assert(entries@[before.len() as int].0 == k);
                        }
                    }
                },
                None => {},
            }
            v = v + 1;
        }
        entries
    }

    /// Sets every balance to zero.
    pub fn reset_balances(&mut self)
        ensures
            old(self).wf() ==> final(self).wf(),
            final(self).clients@ == old(self).clients@,
            final(self).transaction_data@ == old(self).transaction_data@,
            final(self).next_id == old(self).next_id,
            final(self).balances@.dom() == old(self).balances@.dom(),
            forall|id: u16| #[trigger]
                final(self).balances@.contains_key(id) ==> final(self).balances@[id] == Money::spec_zero(),
    {
        let mut v: u32 = 0;
        while v < 0x1_0000
            invariant
                v <= 0x1_0000,
                self.clients@ == old(self).clients@,
                self.transaction_data@ == old(self).transaction_data@,
                self.next_id == old(self).next_id,
                self.balances@.dom() == old(self).balances@.dom(),
                forall|id: u16|
                    id < v && #[trigger] self.balances@.contains_key(id) ==> self.balances@[id]
                        == Money::spec_zero(),
            decreases 0x1_0000 - v,
        {
            let id = v as u16;
            if self.balances.contains_key(&id) {
                self.balances.insert(id, Money::zero());
                assert(self.balances@.dom() =~= old(self).balances@.dom());
            }
            v = v + 1;
        }
    }
}

} // verus!
