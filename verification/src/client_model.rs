//! The client model: the data of a client, the assignment of unique client
//! identifiers, searches among the registered clients, credit and debit
//! transactions on their balances, and the counter of stored-balance files.

use vstd::prelude::*;
use vstd::set_lib::{lemma_int_range, lemma_len_subset, set_int_range};
use vstd::string::*;
use crate::balance_files::{counter_in_file_name, max_counter};
use crate::client_handler::AppState;
use crate::money::{decimal_checked_add, decimal_checked_sub, Money};
use crate::transaction::{
    lemma_lookup_member, requested_amount, requested_client_id, result_view, transaction_outcome,
    AmountReading, TransactionData,
};

verus! {

/// A calendar date, as the client's birth date.
#[derive(Clone, Copy, Debug, PartialEq, Eq, Hash, Structural)]
pub struct CalendarDate {
    pub year: i32,
    pub month: u32,
    pub day: u32,
}

/// `year` is a leap year of the proleptic Gregorian calendar.
pub open spec fn is_leap_year(year: int) -> bool {
    year % 4 == 0 && (year % 100 != 0 || year % 400 == 0)
}

/// The number of days of a month (1 to 12) of a year.
pub open spec fn days_in_month(year: int, month: int) -> int {
    if month == 2 {
        if is_leap_year(year) { 29 } else { 28 }
    } else if month == 4 || month == 6 || month == 9 || month == 11 {
        30
    } else {
        31
    }
}

impl CalendarDate {
    /// A day of the proleptic Gregorian calendar, in the range of years
    /// that `chrono::NaiveDate` holds.
    pub open spec fn is_valid(self) -> bool {
        &&& -262143 <= self.year <= 262142
        &&& 1 <= self.month <= 12
        &&& 1 <= self.day <= days_in_month(self.year as int, self.month as int)
    }
}

/// A client of the service.
#[derive(Clone, Debug, Hash)]
pub struct Client {
    id: Option<u16>,
    client_name: String,
    birth_date: CalendarDate,
    document_number: String,
    country: String,
}

/// The data of a client, its texts taken by their characters.
pub struct ClientView {
    pub id: Option<u16>,
    pub client_name: Seq<char>,
    pub birth_date: CalendarDate,
    pub document_number: Seq<char>,
    pub country: Seq<char>,
}

impl View for Client {
    type V = ClientView;

    closed spec fn view(&self) -> ClientView {
        ClientView {
            id: self.id,
            client_name: self.client_name@,
            birth_date: self.birth_date,
            document_number: self.document_number@,
            country: self.country@,
        }
    }
}

/// Some client has the identifier `id`.
pub open spec fn has_id(clients: Seq<Client>, id: u16) -> bool {
    exists|i: int| 0 <= i < clients.len() && (#[trigger] clients[i])@.id == Some(id)
}

/// Every client has an identifier.
pub open spec fn all_identified(clients: Seq<Client>) -> bool {
    forall|i: int| 0 <= i < clients.len() ==> (#[trigger] clients[i])@.id is Some
}

/// A scan for `id` meets the client `id` before any client without an
/// identifier (reading the identifier of such a client panics).
pub open spec fn scan_for_id_ok(clients: Seq<Client>, id: u16) -> bool {
    forall|j: int|
        0 <= j < clients.len() && (#[trigger] clients[j])@.id is None ==> exists|i: int|
            0 <= i < j && (#[trigger] clients[i])@.id == Some(id)
}

/// Some client has the document number `document`.
pub open spec fn has_document(clients: Seq<Client>, document: Seq<char>) -> bool {
    exists|i: int| 0 <= i < clients.len() && (#[trigger] clients[i])@.document_number == document
}

/// A document number counts as registered exactly when some client's
/// document number is the same sequence of characters: a document that
/// differs from every registered one in any character is not registered.
pub proof fn lemma_has_document_is_equality(clients: Seq<Client>, document: Seq<char>)
    ensures
        has_document(clients, document) <==> exists|i: int|
            0 <= i < clients.len() && (#[trigger] clients[i])@.document_number =~= document,
        (forall|i: int|
            0 <= i < clients.len() ==> exists|k: int|
                0 <= k < document.len() && k < (#[trigger] clients[i])@.document_number.len()
                    && clients[i]@.document_number[k] != document[k]) ==> !has_document(
            clients,
            document,
        ),
{
    if has_document(clients, document) {
        let i = choose|i: int| 0 <= i < clients.len() && (#[trigger] clients[i])@.document_number == document;
        assert(clients[i]@.document_number =~= document);
    }
    if exists|i: int| 0 <= i < clients.len() && (#[trigger] clients[i])@.document_number =~= document {
        let i = choose|i: int| 0 <= i < clients.len() && (#[trigger] clients[i])@.document_number =~= document;
        assert(clients[i]@.document_number == document);
    }
}

/// The identifier after `id` in the counter's order, wrapping around.
pub open spec fn next_id_after(id: u16) -> u16 {
    if id == u16::MAX { 0 } else { (id + 1) as u16 }
}

/// The identifier `k` steps after `start`, wrapping around.
pub open spec fn id_after_steps(start: u16, k: int) -> u16 {
    ((start + k) % 0x1_0000) as u16
}

/// How many steps the counter takes from `start` to `id`.
pub open spec fn steps_between(start: u16, id: u16) -> int {
    (id - start + 0x1_0000) % 0x1_0000
}

/// `id` is the first identifier from `start` on, in the counter's order,
/// that no client has.
pub open spec fn is_first_free_id(clients: Seq<Client>, start: u16, id: u16) -> bool {
    &&& !has_id(clients, id)
    &&& forall|k: int| 0 <= k < steps_between(start, id) ==> has_id(clients, #[trigger] id_after_steps(start, k))
}

/// Some identifier is free.
pub open spec fn some_id_free(clients: Seq<Client>) -> bool {
    exists|id: u16| !has_id(clients, id)
}

/// The index of the first client with identifier `id`.
pub open spec fn first_index_of_id(clients: Seq<Client>, id: u16, i: int) -> bool {
    &&& 0 <= i < clients.len()
    &&& clients[i]@.id == Some(id)
    &&& forall|j: int| 0 <= j < i ==> (#[trigger] clients[j])@.id != Some(id)
}

/// The texts of a sequence of strings.
pub open spec fn texts(names: Seq<String>) -> Seq<Seq<char>> {
    names.map_values(|s: String| s@)
}

/// Fewer than 65536 clients leave some identifier free.
pub proof fn lemma_some_id_free(clients: Seq<Client>)
    requires
        all_identified(clients),
        clients.len() < 0x1_0000,
    ensures
        some_id_free(clients),
{
    let ids = clients.map_values(|c: Client| c@.id->0 as int);
    ids.lemma_cardinality_of_set();
    lemma_int_range(0, 0x1_0000);
    vstd::seq_lib::seq_to_set_is_finite(ids);
    if !some_id_free(clients) {
        assert forall|x: int| #[trigger] set_int_range(0, 0x1_0000).contains(x) implies ids.to_set().contains(x) by {
            assert(has_id(clients, x as u16));
            let i = choose|i: int| 0 <= i < clients.len() && (#[trigger] clients[i])@.id == Some(x as u16);
            assert(ids[i] == x);
        }
        lemma_len_subset(set_int_range(0, 0x1_0000), ids.to_set());
    }
}

/// The counter reaches any identifier after the number of steps between
/// them.
proof fn lemma_steps_reach(start: u16, id: u16)
    ensures
        0 <= steps_between(start, id) < 0x1_0000,
        id_after_steps(start, steps_between(start, id)) == id,
{
}

/// The identifier given from a counter is determined by the clients and
/// the counter: where the counter's identifier is free it is given, and
/// otherwise the first free one after it; no two identifiers qualify.
pub proof fn lemma_first_free_id_is_determined(clients: Seq<Client>, start: u16, id1: u16, id2: u16)
    ensures
        !has_id(clients, start) ==> is_first_free_id(clients, start, start),
        is_first_free_id(clients, start, id1) && is_first_free_id(clients, start, id2) ==> id1 == id2,
        is_first_free_id(clients, start, id1) ==> !has_id(clients, id1),
{
    assert(steps_between(start, start) == 0);
    if is_first_free_id(clients, start, id1) && is_first_free_id(clients, start, id2) {
        lemma_steps_reach(start, id1);
        lemma_steps_reach(start, id2);
        if steps_between(start, id1) < steps_between(start, id2) {
            assert(has_id(clients, id_after_steps(start, steps_between(start, id1))));
        } else if steps_between(start, id2) < steps_between(start, id1) {
            assert(has_id(clients, id_after_steps(start, steps_between(start, id2))));
        }
    }
}

/// Identifiers given one after the other (the second registration sees the
/// client of the first, and starts from the counter the first left) differ,
/// and the second is larger unless the counter wrapped past `u16::MAX`
/// between them, which it does only when every identifier above the first
/// is taken.
pub proof fn lemma_successive_ids(before: Seq<Client>, after: Seq<Client>, start: u16, id1: u16, id2: u16)
    requires
        is_first_free_id(before, start, id1),
        has_id(after, id1),
        is_first_free_id(after, next_id_after(id1), id2),
    ensures
        id2 != id1,
        id1 < id2 || forall|v: u16| id1 < v ==> has_id(after, v),
{
    if id2 < id1 {
        assert forall|v: u16| id1 < v implies has_id(after, v) by {
            let k = v - id1 - 1;
            assert(0 <= k < steps_between(next_id_after(id1), id2));
            assert(id_after_steps(next_id_after(id1), k) == v);
        }
    }
}

/// Within one run, before the counter wraps, the identifiers given one
/// after the other are at least 1 and strictly increase, so that none is
/// given twice.  The run starts with the counter at 1 (`AppState::new`);
/// each registration searches from where the counter stands (the
/// identifier after the one given last); the counter never wraps: no search
/// passes `u16::MAX`, and no identifier but the last is `u16::MAX`.
pub proof fn lemma_ids_increase_within_a_run(clients: Seq<Seq<Client>>, starts: Seq<u16>, ids: Seq<u16>)
    requires
        clients.len() == ids.len(),
        starts.len() == ids.len(),
        ids.len() > 0 ==> starts[0] == 1,
        forall|i: int| 0 <= i < ids.len() ==> is_first_free_id(clients[i], starts[i], #[trigger] ids[i]),
        forall|i: int| 0 <= i < ids.len() - 1 ==> #[trigger] starts[i + 1] == next_id_after(ids[i]),
        forall|i: int|
            0 <= i < ids.len() ==> #[trigger] starts[i] + steps_between(starts[i], ids[i]) <= u16::MAX,
        forall|i: int| 0 <= i < ids.len() - 1 ==> #[trigger] ids[i] < u16::MAX,
    ensures
        forall|i: int| 0 <= i < ids.len() ==> #[trigger] ids[i] >= 1,
        forall|i: int, j: int| 0 <= i < j < ids.len() ==> #[trigger] ids[i] < #[trigger] ids[j],
{
    assert forall|i: int| 0 <= i < ids.len() implies starts[i] <= #[trigger] ids[i] by {
        assert(starts[i] + steps_between(starts[i], ids[i]) <= u16::MAX);
    }
    assert forall|i: int| 0 <= i < ids.len() - 1 implies #[trigger] ids[i] < ids[i + 1] by {
        assert(starts[i + 1] == next_id_after(ids[i]));
        assert(starts[i + 1] <= ids[i + 1]);
    }
    assert forall|i: int| 0 <= i < ids.len() implies #[trigger] ids[i] >= 1 by {
        lemma_increasing_from(ids, 0, i);
        assert(starts[0] <= ids[0]);
    }
    assert forall|i: int, j: int| 0 <= i < j < ids.len() implies #[trigger] ids[i] < #[trigger] ids[j] by {
        lemma_increasing_from(ids, i, j);
    }
}

/// Steps that each increase make a chain that increases.
proof fn lemma_increasing_from(ids: Seq<u16>, i: int, j: int)
    requires
        0 <= i <= j < ids.len(),
        forall|k: int| 0 <= k < ids.len() - 1 ==> #[trigger] ids[k] < ids[k + 1],
    ensures
        i < j ==> ids[i] < ids[j],
        ids[i] <= ids[j],
    decreases j - i,
{
    if i < j {
        lemma_increasing_from(ids, i, j - 1);
        assert(ids[j - 1] < ids[j]);
    }
}

/// A scan for `id` that has not met it yet only meets clients with an
/// identifier.
proof fn lemma_scan_reaches(clients: Seq<Client>, id: u16, i: int)
    requires
        scan_for_id_ok(clients, id),
        0 <= i < clients.len(),
        forall|j: int| 0 <= j < i ==> (#[trigger] clients[j])@.id != Some(id),
    ensures
        clients[i]@.id is Some,
{
    if clients[i]@.id is None {
        let k = choose|k: int| 0 <= k < i && (#[trigger] clients[k])@.id == Some(id);
    }
}

impl Client {
    /// Builds a client with the given data.
    pub fn from_fields(
        id: Option<u16>,
        client_name: String,
        birth_date: CalendarDate,
        document_number: String,
        country: String,
    ) -> (c: Client)
        ensures
            c@ == (ClientView {
                id,
                client_name: client_name@,
                birth_date,
                document_number: document_number@,
                country: country@,
            }),
    {
        Client { id, client_name, birth_date, document_number, country }
    }

    /// A new client with the given data and the first free identifier from
    /// the counter `next_id` on; the counter moves past the identifier given.
    pub fn new(
        client_name: String,
        birth_date: CalendarDate,
        document_number: String,
        country: String,
        clients: &[Client],
        next_id: &mut u16,
    ) -> (c: Client)
        requires
            all_identified(clients@),
            some_id_free(clients@),
        ensures
            c@.id is Some,
            is_first_free_id(clients@, *old(next_id), c@.id->0),
            *final(next_id) == next_id_after(c@.id->0),
            c@.client_name == client_name@,
            c@.birth_date == birth_date,
            c@.document_number == document_number@,
            c@.country == country@,
    {
        let id = Self::generate_unique_id(clients, next_id);
        Client { id: Some(id), client_name, birth_date, document_number, country }
    }

    /// Whether some client has the document number `document_number`.
    pub fn dni_exists(document_number: String, clients: &[Client]) -> (r: bool)
        ensures
            r == has_document(clients@, document_number@),
            r == exists|i: int| 0 <= i < clients@.len() && (#[trigger] clients@[i])@.document_number =~= document_number@,
    {
        let mut i: usize = 0;
        while i < clients.len()
            invariant
                i <= clients@.len(),
                forall|j: int| 0 <= j < i ==> (#[trigger] clients@[j])@.document_number != document_number@,
            decreases clients.len() - i,
        {
            if clients[i].document_number == document_number {
                assert(clients@[i as int]@.document_number == document_number@);
                return true;
            }
            i = i + 1;
        }
        false
    }

    /// Takes identifiers from the counter `next_id`, moving it on by one
    /// each time, until one that no client has; that one is the result.
    fn generate_unique_id(clients: &[Client], next_id: &mut u16) -> (id: u16)
        requires
            all_identified(clients@),
            some_id_free(clients@),
        ensures
            is_first_free_id(clients@, *old(next_id), id),
            *final(next_id) == next_id_after(id),
    {
        let ghost start = *next_id;
        let ghost free = choose|v: u16| !has_id(clients@, v);
        let mut candidate: u16 = *next_id;
        *next_id = if *next_id == u16::MAX { 0 } else { *next_id + 1 };
        while Self::id_exists(candidate, clients)
            invariant
                all_identified(clients@),
                !has_id(clients@, free),
                *next_id == next_id_after(candidate),
                0 <= steps_between(start, candidate) <= steps_between(start, free),
                candidate == id_after_steps(start, steps_between(start, candidate)),
                forall|k: int|
                    0 <= k < steps_between(start, candidate) ==> has_id(
                        clients@,
                        #[trigger] id_after_steps(start, k),
                    ),
            decreases steps_between(start, free) - steps_between(start, candidate),
        {
            assert(has_id(clients@, id_after_steps(start, steps_between(start, candidate))));
            assert(candidate != free);
            assert(steps_between(start, candidate) < steps_between(start, free));
            let ghost old_candidate = candidate;
            candidate = *next_id;
            *next_id = if *next_id == u16::MAX { 0 } else { *next_id + 1 };
            assert(steps_between(start, candidate) == steps_between(start, old_candidate) + 1);
        }
        candidate
    }

    /// Whether every identifier is taken, so that none can be given.
    pub fn ids_exhausted(clients: &[Client]) -> (r: bool)
        requires
            all_identified(clients@),
        ensures
            r == !some_id_free(clients@),
    {
        if clients.len() < 0x1_0000 {
            proof {
                lemma_some_id_free(clients@);
            }
            return false;
        }
        let mut v: u32 = 0;
        while v < 0x1_0000
            invariant
                all_identified(clients@),
                v <= 0x1_0000,
                forall|w: u16| w < v ==> has_id(clients@, w),
            decreases 0x1_0000 - v,
        {
            if !Self::id_exists(v as u16, clients) {
                assert(!has_id(clients@, v as u16));
                return false;
            }
            v = v + 1;
        }
        assert forall|w: u16| has_id(clients@, w) by {
            assert(w < v);
        }
        true
    }

    /// Whether some client has the identifier `id`.
    fn id_exists(id: u16, clients: &[Client]) -> (r: bool)
        requires
            scan_for_id_ok(clients@, id),
        ensures
            r == has_id(clients@, id),
    {
        let mut i: usize = 0;
        while i < clients.len()
            invariant
                i <= clients@.len(),
                scan_for_id_ok(clients@, id),
                forall|j: int| 0 <= j < i ==> (#[trigger] clients@[j])@.id != Some(id),
            decreases clients.len() - i,
        {
            proof {
                lemma_scan_reaches(clients@, id, i as int);
            }
            if clients[i].id() == id {
                return true;
            }
            i = i + 1;
        }
        false
    }

    /// The first client with identifier `id_to_find`, copied.
    pub fn find_client_by_id(clients: &[Client], id_to_find: u16) -> (r: Option<Client>)
        requires
            scan_for_id_ok(clients@, id_to_find),
        ensures
            match r {
                Some(c) => exists|i: int| #[trigger] first_index_of_id(clients@, id_to_find, i) && c@ == clients@[i]@,
                None => !has_id(clients@, id_to_find),
            },
    {
        let mut i: usize = 0;
        while i < clients.len()
            invariant
                i <= clients@.len(),
                scan_for_id_ok(clients@, id_to_find),
                forall|j: int| 0 <= j < i ==> (#[trigger] clients@[j])@.id != Some(id_to_find),
            decreases clients.len() - i,
        {
            proof {
                lemma_scan_reaches(clients@, id_to_find, i as int);
            }
            if clients[i].id() == id_to_find {
                let c = clients[i].duplicate();
                assert(first_index_of_id(clients@, id_to_find, i as int));
                return Some(c);
            }
            i = i + 1;
        }
        None
    }

    /// The largest counter that the names of stored-balance files carry,
    /// or 0 where none carries one.
    pub fn last_counter(file_names: &[String]) -> (r: u32)
        ensures
            r == max_counter(texts(file_names@)),
    {
        let mut max: u32 = 0;
        let mut i: usize = 0;
        while i < file_names.len()
            invariant
                i <= file_names@.len(),
                max == max_counter(texts(file_names@).take(i as int)),
            decreases file_names.len() - i,
        {
            let counter = counter_in_file_name(file_names[i].as_str());
            proof {
                let all = texts(file_names@);
                assert(all.take(i + 1).drop_last() =~= all.take(i as int));
                assert(all.take(i + 1).last() == file_names@[i as int]@);
            }
            match counter {
                Some(c) => {
                    if c > max {
                        max = c;
                    }
                },
                None => {},
            }
            i = i + 1;
        }
        assert(texts(file_names@).take(i as int) =~= texts(file_names@));
        max
    }

    /// What a credit (`debit == false`) or debit request answers, worked
    /// out on the balances without changing them; `None` where the request
    /// cannot be carried out.
    fn plan_transaction(transaction_data: &TransactionData, data: &AppState, debit: bool) -> (r: Option<
        Result<(u16, Money), String>,
    >)
        requires
            data.balances_valid(),
            transaction_data.wf(),
        ensures
            match transaction_outcome(data.balances@, transaction_data.fields@, debit) {
                None => r is None,
                Some((answer, _)) => r matches Some(x) && result_view(x) == answer,
            },
            r matches Some(Ok((id, b))) ==> b.wf(),
    {
        let ghost fields = transaction_data.fields@;
        let id_key = String::from_str("client_id");
        let user_id: u16 = match transaction_data.field(&id_key) {
            Some(v) => match v.unsigned {
                Some(n) => {
                    if n <= 0xFFFF {
                        n as u16
                    } else {
                        return Some(Err(String::from_str("El valor excede el rango de u16")));
                    }
                },
                None => {
                    return Some(Err(String::from_str("Error interno")));
                },
            },
            None => {
                return Some(Err(String::from_str("Error interno")));
            },
        };
        assert(requested_client_id(fields) == Ok::<u16, Seq<char>>(user_id));
        let amount_key = String::from_str("credit_amount");
        let found = transaction_data.field(&amount_key);
        proof {
            lemma_lookup_member(fields, amount_key@);
        }
        let amount: Money = match found {
            Some(v) => match v.amount {
                AmountReading::NotANumber => {
                    return Some(Err(String::from_str("Error interno")));
                },
                AmountReading::OutOfRange => {
                    return None;
                },
                AmountReading::Amount(m) => {
                    let ghost i = choose|i: int| 0 <= i < fields.len() && #[trigger] fields[i].1 == v;
                    assert(fields[i].1.amount matches AmountReading::Amount(m) ==> m.wf());
                    m
                },
            },
            None => {
                return Some(Err(String::from_str("Error interno")));
            },
        };
        assert(requested_amount(fields) == Some(Ok::<Money, Seq<char>>(amount)));
        let current: Money = match data.balances.get(&user_id) {
            Some(b) => *b,
            None => {
                return Some(Err(String::from_str("El usuario no existe")));
            },
        };
        let moved = if debit {
            decimal_checked_sub(current, amount)
        } else {
            decimal_checked_add(current, amount)
        };
        match moved {
            Some(b) => Some(Ok((user_id, b))),
            None => None,
        }
    }

    /// Applies a credit (`debit == false`) or debit request to the balances.
    fn apply_transaction(transaction_data: &TransactionData, data: &mut AppState, debit: bool) -> (r:
        Result<(u16, Money), String>)
        requires
            old(data).balances_valid(),
            transaction_data.wf(),
            transaction_outcome(old(data).balances@, transaction_data.fields@, debit) is Some,
        ensures
            old(data).wf() ==> final(data).wf(),
            final(data).balances_valid(),
            final(data).clients@ == old(data).clients@,
            final(data).transaction_data@ == old(data).transaction_data@,
            final(data).next_id == old(data).next_id,
            transaction_outcome(old(data).balances@, transaction_data.fields@, debit) == Some(
                (result_view(r), final(data).balances@),
            ),
    {
        match Self::plan_transaction(transaction_data, data, debit) {
            Some(r) => {
                match r {
                    Ok((id, b)) => {
                        data.balances.insert(id, b);
                        assert(data.balances@ =~= old(data).balances@.insert(id, b));
                    },
                    Err(_) => {},
                }
                r
            },
            None => {
                assert(false);
                Err(String::new())
            },
        }
    }

    /// Credits the amount that the request gives to the balance of the
    /// client that it names: the client's id and new balance, or the error
    /// text, as `transaction_outcome` says; the clients are untouched.
    pub fn credit_transaction(transaction_data: &TransactionData, data: &mut AppState) -> (r: Result<
        (u16, Money),
        String,
    >)
        requires
            old(data).balances_valid(),
            transaction_data.wf(),
            transaction_outcome(old(data).balances@, transaction_data.fields@, false) is Some,
        ensures
            old(data).wf() ==> final(data).wf(),
            final(data).balances_valid(),
            final(data).clients@ == old(data).clients@,
            final(data).transaction_data@ == old(data).transaction_data@,
            final(data).next_id == old(data).next_id,
            transaction_outcome(old(data).balances@, transaction_data.fields@, false) == Some(
                (result_view(r), final(data).balances@),
            ),
    {
        Self::apply_transaction(transaction_data, data, false)
    }

    /// Debits the amount that the request gives (under the same field as a
    /// credit) from the balance of the client that it names, as
    /// `transaction_outcome` says; the clients are untouched.
    pub fn debit_transaction(transaction_data: &TransactionData, data: &mut AppState) -> (r: Result<
        (u16, Money),
        String,
    >)
        requires
            old(data).balances_valid(),
            transaction_data.wf(),
            transaction_outcome(old(data).balances@, transaction_data.fields@, true) is Some,
        ensures
            old(data).wf() ==> final(data).wf(),
            final(data).balances_valid(),
            final(data).clients@ == old(data).clients@,
            final(data).transaction_data@ == old(data).transaction_data@,
            final(data).next_id == old(data).next_id,
            transaction_outcome(old(data).balances@, transaction_data.fields@, true) == Some(
                (result_view(r), final(data).balances@),
            ),
    {
        Self::apply_transaction(transaction_data, data, true)
    }

    /// Whether a credit (`debit == false`) or debit request can be carried
    /// out: its amount is representable and the new balance does not
    /// overflow.
    pub fn transaction_possible(transaction_data: &TransactionData, data: &AppState, debit: bool) -> (r:
        bool)
        requires
            data.balances_valid(),
            transaction_data.wf(),
        ensures
            r == transaction_outcome(data.balances@, transaction_data.fields@, debit) is Some,
    {
        Self::plan_transaction(transaction_data, data, debit).is_some()
    }

    /// A copy of the client.
    fn duplicate(&self) -> (c: Client)
        ensures
            c@ == self@,
    {
        Client {
            id: self.id,
            client_name: self.client_name.clone(),
            birth_date: self.birth_date,
            document_number: self.document_number.clone(),
            country: self.country.clone(),
        }
    }

    /// The client's identifier.
    pub fn id(&self) -> (r: u16)
        requires
            self@.id is Some,
        ensures
            self@.id == Some(r),
    {
        self.id.unwrap()
    }

    /// The client's identifier, if it has one.
    pub fn id_if_any(&self) -> (r: Option<u16>)
        ensures
            r == self@.id,
    {
        self.id
    }

    pub fn client_name(&self) -> (r: &str)
        ensures
            r@ == self@.client_name,
    {
        self.client_name.as_str()
    }

    pub fn birth_date(&self) -> (r: CalendarDate)
        ensures
            r == self@.birth_date,
    {
        self.birth_date
    }

    pub fn document_number(&self) -> (r: &str)
        ensures
            r@ == self@.document_number,
    {
        self.document_number.as_str()
    }

    pub fn country(&self) -> (r: &str)
        ensures
            r@ == self@.country,
    {
        self.country.as_str()
    }
}

} // verus!
