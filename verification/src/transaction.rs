//! The body of a credit or debit request: a JSON object whose field
//! `client_id` names the client and whose field `credit_amount` gives the
//! amount, and what a request asks of the balances.

use vstd::prelude::*;
use crate::money::{
    decimal_sum, exact_sum, lemma_exact_sum_value, lemma_exact_sums_commute, lemma_zero_value,
    magnitude_limit, negated, scaled, Money,
};

verus! {

/// What a JSON value reads as, as a decimal amount.
#[derive(Clone, Copy, Debug)]
pub enum AmountReading {
    /// The value is not a JSON number.
    NotANumber,
    /// The value is a JSON number that no decimal amount can hold.
    OutOfRange,
    /// The value is a JSON number, held as this amount.
    Amount(Money),
}

/// What the request logic reads of one JSON value: the value as an unsigned
/// integer (`None` where it is not a non-negative JSON integer) and the
/// value as a decimal amount.
#[derive(Clone, Copy, Debug)]
pub struct FieldValue {
    pub unsigned: Option<u64>,
    pub amount: AmountReading,
}

/// The fields of a request's JSON object, each key once.
pub struct TransactionData {
    pub fields: Vec<(String, FieldValue)>,
}

/// The value of the first field whose key is `key`.
pub open spec fn lookup(fields: Seq<(String, FieldValue)>, key: Seq<char>) -> Option<FieldValue>
    decreases fields.len(),
{
    if fields.len() == 0 {
        None
    } else if fields[0].0@ == key {
        Some(fields[0].1)
    } else {
        lookup(fields.drop_first(), key)
    }
}

/// The key of the field that names the client.
pub open spec fn client_id_key() -> Seq<char> {
    "client_id"@
}

/// The key of the field that gives the amount, of credits and debits alike.
pub open spec fn amount_key() -> Seq<char> {
    "credit_amount"@
}

/// The error for a missing or unreadable field.
pub open spec fn internal_error_text() -> Seq<char> {
    "Error interno"@
}

/// The error for a client id above the range of `u16`.
pub open spec fn range_error_text() -> Seq<char> {
    "El valor excede el rango de u16"@
}

/// The error for a client id that no client has.
pub open spec fn unknown_client_text() -> Seq<char> {
    "El usuario no existe"@
}

/// The client id that a request names, or the error it is refused with.
pub open spec fn requested_client_id(fields: Seq<(String, FieldValue)>) -> Result<u16, Seq<char>> {
    match lookup(fields, client_id_key()) {
        Some(v) => match v.unsigned {
            Some(n) => if n <= u16::MAX {
                Ok(n as u16)
            } else {
                Err(range_error_text())
            },
            None => Err(internal_error_text()),
        },
        None => Err(internal_error_text()),
    }
}

/// The amount that a request gives, or the error it is refused with; `None`
/// for a number that no decimal amount can hold.
pub open spec fn requested_amount(fields: Seq<(String, FieldValue)>) -> Option<Result<Money, Seq<char>>> {
    match lookup(fields, amount_key()) {
        Some(v) => match v.amount {
            AmountReading::NotANumber => Some(Err(internal_error_text())),
            AmountReading::OutOfRange => None,
            AmountReading::Amount(m) => Some(Ok(m)),
        },
        None => Some(Err(internal_error_text())),
    }
}

/// The sum of a balance and an amount where `rust_decimal`'s source shows
/// it: a zero operand gives the other operand, and a sum that fits in 96
/// bits at the larger scale is exact.
pub open spec fn known_sum(balance: Money, amount: Money) -> Option<Money> {
    if balance.is_zero() {
        Some(amount)
    } else if amount.is_zero() {
        Some(balance)
    } else {
        exact_sum(balance, amount)
    }
}

/// A balance with an amount added: the known sum where the source shows
/// it, and otherwise the decimal sum; `None` where the sum overflows.
pub open spec fn credited(balance: Money, amount: Money) -> Option<Money> {
    match known_sum(balance, amount) {
        Some(m) => Some(m),
        None => decimal_sum(balance, amount),
    }
}

/// A balance moved by an amount: added for a credit; for a debit, the
/// amount with its sign flipped added, except that a zero taken from a zero
/// gives the amount itself.  `None` where the decimal arithmetic overflows.
pub open spec fn moved_balance(balance: Money, amount: Money, debit: bool) -> Option<Money> {
    if !debit {
        credited(balance, amount)
    } else if balance.is_zero() && amount.is_zero() {
        Some(amount)
    } else {
        credited(balance, negated(amount))
    }
}

/// What a credit (`debit == false`) or debit request does to the balances:
/// the answer (the client id and its new balance, or the error text) and
/// the balances afterwards.  `None` where the request cannot be carried
/// out at all: an amount that no decimal can hold, or an overflowing
/// balance.  The client id is read first, then the amount, then the
/// client's balance.
pub open spec fn transaction_outcome(
    balances: Map<u16, Money>,
    fields: Seq<(String, FieldValue)>,
    debit: bool,
) -> Option<(Result<(u16, Money), Seq<char>>, Map<u16, Money>)> {
    match requested_client_id(fields) {
        Err(e) => Some((Err(e), balances)),
        Ok(id) => match requested_amount(fields) {
            None => None,
            Some(Err(e)) => Some((Err(e), balances)),
            Some(Ok(amount)) => if !balances.contains_key(id) {
                Some((Err(unknown_client_text()), balances))
            } else {
                match moved_balance(balances[id], amount, debit) {
                    None => None,
                    Some(b) => Some((Ok((id, b)), balances.insert(id, b))),
                }
            },
        },
    }
}

/// A refused request leaves every balance as it was.
pub proof fn lemma_refused_request_keeps_balances(
    balances: Map<u16, Money>,
    fields: Seq<(String, FieldValue)>,
    debit: bool,
)
    ensures
        transaction_outcome(balances, fields, debit) matches Some((Err(_), after)) ==> after
            == balances,
{
}

/// A carried-out request changes one balance, that of the client it names,
/// an existing one, to the balance it answers with.
pub proof fn lemma_completed_request_moves_one_balance(
    balances: Map<u16, Money>,
    fields: Seq<(String, FieldValue)>,
    debit: bool,
)
    ensures
        transaction_outcome(balances, fields, debit) matches Some((Ok((id, b)), after)) ==> {
            &&& requested_client_id(fields) == Ok::<u16, Seq<char>>(id)
            &&& balances.contains_key(id)
            &&& after == balances.insert(id, b)
            &&& after.dom() == balances.dom()
            &&& requested_amount(fields) matches Some(Ok(amount))
                && moved_balance(balances[id], amount, debit) == Some(b)
        },
{
    match transaction_outcome(balances, fields, debit) {
        Some((Ok((id, b)), after)) => {
            assert(after.dom() =~= balances.dom());
        },
        _ => {},
    }
}

/// A request naming a client that has no balance is refused with the
/// unknown-client text, where its id and amount read well.
pub proof fn lemma_unknown_client_refused(
    balances: Map<u16, Money>,
    fields: Seq<(String, FieldValue)>,
    debit: bool,
)
    requires
        requested_client_id(fields) matches Ok(id) && !balances.contains_key(id),
        requested_amount(fields) matches Some(Ok(_)),
    ensures
        transaction_outcome(balances, fields, debit) == Some(
            (Err::<(u16, Money), Seq<char>>(unknown_client_text()), balances),
        ),
{
}

/// A balance moved by a zero amount keeps its value, and keeps its parts
/// where it is not zero itself.
pub proof fn lemma_zero_amount_keeps_balance(balance: Money, amount: Money, debit: bool)
    requires
        balance.wf(),
        amount.wf(),
        amount.is_zero(),
    ensures
        moved_balance(balance, amount, debit) matches Some(after) && after.value() == balance.value()
            && (!balance.is_zero() ==> after == balance),
{
    lemma_zero_value(amount);
    if balance.is_zero() {
        lemma_zero_value(balance);
        lemma_zero_value(negated(amount));
    }
}

/// A sum that the source shows has the sum of the values.
pub proof fn lemma_known_sum_value(balance: Money, amount: Money)
    requires
        balance.wf(),
        amount.wf(),
        known_sum(balance, amount) is Some,
    ensures
        known_sum(balance, amount)->0.value() == balance.value() + amount.value(),
{
    if balance.is_zero() {
        lemma_zero_value(balance);
    } else if amount.is_zero() {
        lemma_zero_value(amount);
    } else {
        lemma_exact_sum_value(balance, amount);
    }
}

/// The balances after a request, where it is carried out.
pub open spec fn balances_after(
    balances: Map<u16, Money>,
    fields: Seq<(String, FieldValue)>,
    debit: bool,
) -> Map<u16, Money> {
    match transaction_outcome(balances, fields, debit) {
        Some((_, after)) => after,
        None => balances,
    }
}

/// Two credits of the same client, each added without rounding, are
/// carried out in either order and leave balances that differ at most in
/// the representation of that client's balance, whose value is the same;
/// where no operand or intermediate balance is zero they leave the same
/// balances.
pub proof fn lemma_credits_commute(
    balances: Map<u16, Money>,
    first: Seq<(String, FieldValue)>,
    second: Seq<(String, FieldValue)>,
    k: u16,
    x1: Money,
    x2: Money,
)
    requires
        requested_client_id(first) == Ok::<u16, Seq<char>>(k),
        requested_client_id(second) == Ok::<u16, Seq<char>>(k),
        balances.contains_key(k),
        balances[k].wf(),
        x1.wf(),
        x2.wf(),
        requested_amount(first) == Some(Ok::<Money, Seq<char>>(x1)),
        requested_amount(second) == Some(Ok::<Money, Seq<char>>(x2)),
        known_sum(balances[k], x1) is Some,
        known_sum(known_sum(balances[k], x1)->0, x2) is Some,
        known_sum(balances[k], x2) is Some,
        known_sum(known_sum(balances[k], x2)->0, x1) is Some,
    ensures
        transaction_outcome(balances, first, false) is Some,
        transaction_outcome(balances, second, false) is Some,
        transaction_outcome(balances_after(balances, first, false), second, false) is Some,
        transaction_outcome(balances_after(balances, second, false), first, false) is Some,
        ({
            let one = balances_after(balances_after(balances, first, false), second, false);
            let two = balances_after(balances_after(balances, second, false), first, false);
            &&& one.dom() == two.dom()
            &&& forall|j: u16| #[trigger] one.contains_key(j) && j != k ==> one[j] == two[j]
            &&& one[k].value() == two[k].value()
            &&& !balances[k].is_zero() && !x1.is_zero() && !x2.is_zero()
                && !known_sum(balances[k], x1)->0.is_zero() && !known_sum(balances[k], x2)->0.is_zero()
                ==> one == two
        }),
{
    let b = balances[k];
    let c1 = known_sum(b, x1)->0;
    let c2 = known_sum(b, x2)->0;
    lemma_known_sum_value(b, x1);
    lemma_known_sum_value(b, x2);
    assert(c1.wf() && c2.wf());
    lemma_known_sum_value(c1, x2);
    lemma_known_sum_value(c2, x1);
    let d1 = known_sum(c1, x2)->0;
    let d2 = known_sum(c2, x1)->0;
    assert(balances_after(balances, first, false) == balances.insert(k, c1));
    assert(balances_after(balances, second, false) == balances.insert(k, c2));
    assert(balances.insert(k, c1)[k] == c1);
    assert(balances.insert(k, c2)[k] == c2);
    let one = balances.insert(k, c1).insert(k, d1);
    let two = balances.insert(k, c2).insert(k, d2);
    assert(one.dom() =~= two.dom());
    if !b.is_zero() && !x1.is_zero() && !x2.is_zero() && !c1.is_zero() && !c2.is_zero() {
        lemma_exact_sums_commute(b, x1, x2);
        assert(one =~= two);
    }
}

/// A debit of the amount of a credit, each carried out without rounding,
/// gives the client's balance back its value from before the credit.
pub proof fn lemma_debit_undoes_credit(
    balances: Map<u16, Money>,
    credit: Seq<(String, FieldValue)>,
    debit: Seq<(String, FieldValue)>,
    k: u16,
    x: Money,
)
    requires
        requested_client_id(credit) == Ok::<u16, Seq<char>>(k),
        requested_client_id(debit) == Ok::<u16, Seq<char>>(k),
        balances.contains_key(k),
        balances[k].wf(),
        requested_amount(credit) == Some(Ok::<Money, Seq<char>>(x)),
        requested_amount(debit) == Some(Ok::<Money, Seq<char>>(x)),
        x.wf(),
        known_sum(balances[k], x) is Some,
        known_sum(known_sum(balances[k], x)->0, negated(x)) is Some,
    ensures
        transaction_outcome(balances, credit, false) is Some,
        transaction_outcome(balances_after(balances, credit, false), debit, true) matches Some(
            (Ok((id, after)), _),
        ) && id == k && after.value() == balances[k].value(),
{
    let b = balances[k];
    let c = known_sum(b, x)->0;
    lemma_known_sum_value(b, x);
    assert(balances.insert(k, c)[k] == c);
    assert(negated(x).value() == -x.value());
    lemma_known_sum_value(c, negated(x));
    if c.is_zero() && x.is_zero() {
        lemma_zero_value(c);
        lemma_zero_value(x);
    }
}

/// A debit of an amount moves a balance as a credit of the amount with its
/// sign flipped, for every balance and amount: to the same balance, or,
/// where both are zero, to a zero of the same value.
pub proof fn lemma_debit_is_credit_of_negation(balance: Money, amount: Money)
    ensures
        !(balance.is_zero() && amount.is_zero()) ==> moved_balance(balance, amount, true) == moved_balance(
            balance,
            negated(amount),
            false,
        ),
        balance.is_zero() && amount.is_zero() ==> moved_balance(balance, amount, true) == Some(amount)
            && moved_balance(balance, negated(amount), false) == Some(negated(amount))
            && amount.value() == 0 && negated(amount).value() == 0,
{
    if balance.is_zero() && amount.is_zero() {
        lemma_zero_value(amount);
        lemma_zero_value(negated(amount));
    }
}

/// A debit request and a credit request of the same client, the credit's
/// amount being the debit's with its sign flipped, answer and leave the
/// balances alike, unless the client's balance and the amount are both
/// zero.
pub proof fn lemma_debit_request_is_credit_of_negation(
    balances: Map<u16, Money>,
    debit: Seq<(String, FieldValue)>,
    credit: Seq<(String, FieldValue)>,
    k: u16,
    y: Money,
)
    requires
        requested_client_id(debit) == Ok::<u16, Seq<char>>(k),
        requested_client_id(credit) == Ok::<u16, Seq<char>>(k),
        requested_amount(debit) == Some(Ok::<Money, Seq<char>>(y)),
        requested_amount(credit) == Some(Ok::<Money, Seq<char>>(negated(y))),
        !(balances.contains_key(k) && balances[k].is_zero() && y.is_zero()),
    ensures
        transaction_outcome(balances, debit, true) == transaction_outcome(balances, credit, false),
{
    if balances.contains_key(k) {
        lemma_debit_is_credit_of_negation(balances[k], y);
    }
}

/// The larger scale of two amounts.
pub open spec fn larger_scale(a: Money, b: Money) -> u32 {
    if a.scale >= b.scale { a.scale } else { b.scale }
}

/// The exact result of moving a balance by an amount (adding it, or taking
/// it away for a debit) fits in 96 bits at the larger scale, or an operand
/// is zero: `rust_decimal` then rounds nothing.
pub open spec fn moves_without_rounding(balance: Money, amount: Money, debit: bool) -> bool {
    let s = larger_scale(balance, amount);
    let total = if debit {
        scaled(balance, s) - scaled(amount, s)
    } else {
        scaled(balance, s) + scaled(amount, s)
    };
    balance.is_zero() || amount.is_zero() || -magnitude_limit() < total < magnitude_limit()
}

/// A credit adds the amount and a debit takes it away, for every sign of
/// balance and amount: wherever nothing is rounded, the new balance has the
/// value of the old one plus (for a debit, minus) the amount, at the larger
/// scale where neither is zero.
pub proof fn lemma_move_adds_or_subtracts(balance: Money, amount: Money, debit: bool)
    requires
        balance.wf(),
        amount.wf(),
        moves_without_rounding(balance, amount, debit),
    ensures
        moved_balance(balance, amount, debit) is Some,
        moved_balance(balance, amount, debit)->0.value() == if debit {
            balance.value() - amount.value()
        } else {
            balance.value() + amount.value()
        },
        !balance.is_zero() && !amount.is_zero() ==> moved_balance(balance, amount, debit)->0.scale
            == larger_scale(balance, amount),
{
    let s = larger_scale(balance, amount);
    assert(negated(amount).value() == -amount.value());
    assert(scaled(negated(amount), s) == -scaled(amount, s));
    if balance.is_zero() {
        lemma_zero_value(balance);
        if amount.is_zero() {
            lemma_zero_value(amount);
        }
    } else if amount.is_zero() {
        lemma_zero_value(amount);
    } else if debit {
        lemma_exact_sum_value(balance, negated(amount));
    } else {
        lemma_exact_sum_value(balance, amount);
    }
}

/// A credit (`debit == false`) or debit request naming, in any field
/// order, an existing client `k` and an amount `x` is carried out wherever
/// nothing is rounded: it answers with `k` and the new balance, whose value
/// is the old one plus (minus, for a debit) `x`, and changes that balance
/// only.
pub proof fn lemma_request_moves_balance(
    balances: Map<u16, Money>,
    fields: Seq<(String, FieldValue)>,
    debit: bool,
    j1: int,
    j2: int,
    k: u16,
    x: Money,
)
    requires
        distinct_keys(fields),
        0 <= j1 < fields.len(),
        0 <= j2 < fields.len(),
        fields[j1].0@ == "client_id"@,
        fields[j1].1.unsigned == Some(k as u64),
        fields[j2].0@ == "credit_amount"@,
        fields[j2].1.amount == AmountReading::Amount(x),
        balances.contains_key(k),
        balances[k].wf(),
        x.wf(),
        moves_without_rounding(balances[k], x, debit),
    ensures
        transaction_outcome(balances, fields, debit) matches Some((Ok((id, m)), after)) && id == k
            && after == balances.insert(k, m) && m.value() == if debit {
            balances[k].value() - x.value()
        } else {
            balances[k].value() + x.value()
        },
{
    lemma_client_id_from_its_field(fields, j1);
    lemma_amount_from_its_field(fields, j2);
    lemma_move_adds_or_subtracts(balances[k], x, debit);
}

/// No two fields share a key, as in a JSON object.
pub open spec fn distinct_keys(fields: Seq<(String, FieldValue)>) -> bool {
    forall|i: int, j: int|
        0 <= i < fields.len() && 0 <= j < fields.len() && i != j ==> (#[trigger] fields[i]).0@
            != (#[trigger] fields[j]).0@
}

/// Among fields with distinct keys, the value under a key is that of the
/// field with that key, wherever it stands.
pub proof fn lemma_lookup_finds_any_position(fields: Seq<(String, FieldValue)>, key: Seq<char>, j: int)
    requires
        distinct_keys(fields),
        0 <= j < fields.len(),
        fields[j].0@ == key,
    ensures
        lookup(fields, key) == Some(fields[j].1),
    decreases fields.len(),
{
    if j > 0 {
        let rest = fields.drop_first();
        assert(fields[0].0@ != key) by {
            assert(fields[0].0@ != fields[j].0@);
        }
        assert forall|a: int, b: int|
            0 <= a < rest.len() && 0 <= b < rest.len() && a != b implies (#[trigger] rest[a]).0@
                != (#[trigger] rest[b]).0@ by {
            assert(rest[a] == fields[a + 1] && rest[b] == fields[b + 1]);
        }
        assert(rest[j - 1] == fields[j]);
        lemma_lookup_finds_any_position(rest, key, j - 1);
    }
}

/// Where no field has the key, there is no value under it.
pub proof fn lemma_lookup_absent(fields: Seq<(String, FieldValue)>, key: Seq<char>)
    requires
        forall|i: int| 0 <= i < fields.len() ==> (#[trigger] fields[i]).0@ != key,
    ensures
        lookup(fields, key) is None,
    decreases fields.len(),
{
    if fields.len() > 0 {
        let rest = fields.drop_first();
        assert forall|i: int| 0 <= i < rest.len() implies (#[trigger] rest[i]).0@ != key by {
            assert(rest[i] == fields[i + 1]);
        }
        assert(fields[0].0@ != key);
        lemma_lookup_absent(rest, key);
    }
}

/// The amount of a request is read from its field `credit_amount`,
/// wherever that field stands among the fields: its decimal amount; the
/// internal error for a value that is not a number; nothing (the request
/// cannot be carried out) for a number that no decimal holds.
pub proof fn lemma_amount_from_its_field(fields: Seq<(String, FieldValue)>, j: int)
    requires
        distinct_keys(fields),
        0 <= j < fields.len(),
        fields[j].0@ == "credit_amount"@,
    ensures
        fields[j].1.amount matches AmountReading::Amount(m) ==> requested_amount(fields) == Some(
            Ok::<Money, Seq<char>>(m),
        ),
        fields[j].1.amount is NotANumber ==> requested_amount(fields) == Some(
            Err::<Money, Seq<char>>("Error interno"@),
        ),
        fields[j].1.amount is OutOfRange ==> requested_amount(fields) is None,
{
    lemma_lookup_finds_any_position(fields, "credit_amount"@, j);
}

/// A request without a field `credit_amount` is refused with the internal
/// error, where its client id reads well.
pub proof fn lemma_amount_missing(fields: Seq<(String, FieldValue)>)
    requires
        forall|i: int| 0 <= i < fields.len() ==> (#[trigger] fields[i]).0@ != "credit_amount"@,
    ensures
        requested_amount(fields) == Some(Err::<Money, Seq<char>>("Error interno"@)),
{
    lemma_lookup_absent(fields, "credit_amount"@);
}

/// The client id of a request is read from its field `client_id`,
/// wherever that field stands: a non-negative integer up to 65535 is the
/// id, a larger one is refused with the range error, and anything else
/// with the internal error.
pub proof fn lemma_client_id_from_its_field(fields: Seq<(String, FieldValue)>, j: int)
    requires
        distinct_keys(fields),
        0 <= j < fields.len(),
        fields[j].0@ == "client_id"@,
    ensures
        match fields[j].1.unsigned {
            Some(n) => if n <= 65535 {
                requested_client_id(fields) == Ok::<u16, Seq<char>>(n as u16)
            } else {
                requested_client_id(fields) == Err::<u16, Seq<char>>("El valor excede el rango de u16"@)
            },
            None => requested_client_id(fields) == Err::<u16, Seq<char>>("Error interno"@),
        },
{
    lemma_lookup_finds_any_position(fields, "client_id"@, j);
}

/// A request without a field `client_id` is refused with the internal
/// error.
pub proof fn lemma_client_id_missing(fields: Seq<(String, FieldValue)>)
    requires
        forall|i: int| 0 <= i < fields.len() ==> (#[trigger] fields[i]).0@ != "client_id"@,
    ensures
        requested_client_id(fields) == Err::<u16, Seq<char>>("Error interno"@),
{
    lemma_lookup_absent(fields, "client_id"@);
}

/// The order of a request's fields does not matter: two requests with the
/// same fields (distinct keys) in any order name the same client and the
/// same amount, and do the same to any balances.
pub proof fn lemma_field_order_is_irrelevant(
    f: Seq<(String, FieldValue)>,
    g: Seq<(String, FieldValue)>,
    balances: Map<u16, Money>,
    debit: bool,
)
    requires
        distinct_keys(f),
        distinct_keys(g),
        forall|i: int| 0 <= i < f.len() ==> exists|j: int| 0 <= j < g.len() && #[trigger] g[j] == #[trigger] f[i],
        forall|j: int| 0 <= j < g.len() ==> exists|i: int| 0 <= i < f.len() && #[trigger] f[i] == #[trigger] g[j],
    ensures
        requested_client_id(f) == requested_client_id(g),
        requested_amount(f) == requested_amount(g),
        transaction_outcome(balances, f, debit) == transaction_outcome(balances, g, debit),
{
    lemma_same_lookup(f, g, "client_id"@);
    lemma_same_lookup(f, g, "credit_amount"@);
}

/// Two field sequences with distinct keys and the same fields agree on
/// every key.
proof fn lemma_same_lookup(f: Seq<(String, FieldValue)>, g: Seq<(String, FieldValue)>, key: Seq<char>)
    requires
        distinct_keys(f),
        distinct_keys(g),
        forall|i: int| 0 <= i < f.len() ==> exists|j: int| 0 <= j < g.len() && #[trigger] g[j] == #[trigger] f[i],
        forall|j: int| 0 <= j < g.len() ==> exists|i: int| 0 <= i < f.len() && #[trigger] f[i] == #[trigger] g[j],
    ensures
        lookup(f, key) == lookup(g, key),
{
    if exists|i: int| 0 <= i < f.len() && (#[trigger] f[i]).0@ == key {
        let i = choose|i: int| 0 <= i < f.len() && (#[trigger] f[i]).0@ == key;
        let j = choose|j: int| 0 <= j < g.len() && #[trigger] g[j] == f[i];
        lemma_lookup_finds_any_position(f, key, i);
        lemma_lookup_finds_any_position(g, key, j);
    } else {
        lemma_lookup_absent(f, key);
        assert forall|j: int| 0 <= j < g.len() implies (#[trigger] g[j]).0@ != key by {
            let i = choose|i: int| 0 <= i < f.len() && #[trigger] f[i] == g[j];
            assert(f[i].0@ != key);
        }
        lemma_lookup_absent(g, key);
    }
}

/// A field found by key is one of the fields.
pub proof fn lemma_lookup_member(fields: Seq<(String, FieldValue)>, key: Seq<char>)
    ensures
        lookup(fields, key) matches Some(v) ==> exists|i: int|
            0 <= i < fields.len() && #[trigger] fields[i].1 == v,
    decreases fields.len(),
{
    if fields.len() > 0 && fields[0].0@ != key {
        lemma_lookup_member(fields.drop_first(), key);
        if lookup(fields, key) is Some {
            let v = lookup(fields, key)->0;
            let i = choose|i: int| 0 <= i < fields.drop_first().len() && #[trigger] fields.drop_first()[i].1 == v;
            assert(fields[i + 1].1 == v);
        }
    } else if fields.len() > 0 {
        assert(fields[0].1 == lookup(fields, key)->0);
    }
}

/// A transaction result, its error taken by its characters.
pub open spec fn result_view(r: Result<(u16, Money), String>) -> Result<(u16, Money), Seq<char>> {
    match r {
        Ok(p) => Ok(p),
        Err(e) => Err(e@),
    }
}

impl TransactionData {
    /// Every amount that a field holds is a representable decimal.
    pub open spec fn wf(&self) -> bool {
        forall|i: int|
            0 <= i < self.fields@.len() ==> ((#[trigger] self.fields@[i]).1.amount matches AmountReading::Amount(
                m,
            ) ==> m.wf())
    }

    /// The value of the field with the given key.
    pub fn field(&self, key: &String) -> (r: Option<FieldValue>)
        ensures
            r == lookup(self.fields@, key@),
    {
        let mut i: usize = 0;
        assert(self.fields@.skip(0) =~= self.fields@);
        while i < self.fields.len()
            invariant
                i <= self.fields@.len(),
                lookup(self.fields@, key@) == lookup(self.fields@.skip(i as int), key@),
            decreases self.fields.len() - i,
        {
            let ghost rest = self.fields@.skip(i as int);
            assert(rest[0] == self.fields@[i as int]);
            if self.fields[i].0 == *key {
                return Some(self.fields[i].1);
            }
            assert(rest.drop_first() =~= self.fields@.skip(i + 1));
            i = i + 1;
        }
        None
    }
}

} // verus!
