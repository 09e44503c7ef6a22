use client_service::client_handler::{
    client_balance, new_client, new_credit_transaction, new_debit_transaction, AppState,
    NewClientReply, TransactionReply,
};
use client_service::client_model::{CalendarDate, Client};
use client_service::money::Money;
use client_service::transaction::{AmountReading, FieldValue, TransactionData};

fn date() -> CalendarDate {
    CalendarDate { year: 1990, month: 5, day: 17 }
}

fn request(name: &str, document: &str) -> Client {
    Client::from_fields(None, name.to_string(), date(), document.to_string(), "Argentina".to_string())
}

fn money(negative: bool, scale: u32, magnitude: u128) -> Money {
    Money::from_parts(negative, scale, magnitude).unwrap()
}

fn integer_field(n: u64) -> FieldValue {
    FieldValue { unsigned: Some(n), amount: AmountReading::Amount(money(false, 0, n as u128)) }
}

fn amount_field(m: Money) -> FieldValue {
    FieldValue { unsigned: None, amount: AmountReading::Amount(m) }
}

fn transaction(id: FieldValue, amount: FieldValue) -> TransactionData {
    TransactionData {
        fields: vec![("client_id".to_string(), id), ("credit_amount".to_string(), amount)],
    }
}

fn registered(documents: &[&str]) -> AppState {
    let mut state = AppState::new();
    for d in documents {
        match new_client(&request("Ana", d), &mut state) {
            Some(NewClientReply::Created { .. }) => {}
            _ => panic!("registration refused"),
        }
    }
    state
}

#[test]
fn first_clients_get_ids_from_one() {
    let mut state = AppState::new();
    assert_eq!(new_client(&request("Ana", "100"), &mut state), Some(NewClientReply::Created { id: 1 }));
    assert_eq!(new_client(&request("Luis", "200"), &mut state), Some(NewClientReply::Created { id: 2 }));
    assert_eq!(state.next_id, 3);
    assert_eq!(state.clients.len(), 2);
    assert_eq!(state.clients[1].client_name(), "Luis");
    assert_eq!(state.clients[1].document_number(), "200");
    assert_eq!(state.clients[1].country(), "Argentina");
    assert_eq!(state.clients[1].birth_date(), date());
    assert_eq!(NewClientReply::Created { id: 1 }.status(), 201);
}

#[test]
fn duplicate_document_is_refused() {
    let mut state = registered(&["100"]);
    let reply = new_client(&request("Otra", "100"), &mut state);
    assert_eq!(reply, Some(NewClientReply::DocumentExists));
    assert_eq!(NewClientReply::DocumentExists.status(), 400);
    assert_eq!(state.clients.len(), 1);
    assert_eq!(state.next_id, 2);
    assert_eq!(state.balances.len(), 1);
}

#[test]
fn request_id_is_ignored() {
    let mut state = AppState::new();
    let c = Client::from_fields(Some(77), "Ana".to_string(), date(), "5".to_string(), "Chile".to_string());
    assert_eq!(new_client(&c, &mut state), Some(NewClientReply::Created { id: 1 }));
    assert_eq!(state.clients[0].id(), 1);
}

#[test]
fn taken_ids_are_skipped() {
    let mut state = registered(&["100", "200", "300"]);
    state.next_id = 2;
    assert_eq!(new_client(&request("Eva", "400"), &mut state), Some(NewClientReply::Created { id: 4 }));
    assert_eq!(state.next_id, 5);
}

#[test]
fn counter_wraps_around() {
    let mut state = AppState::new();
    state.next_id = u16::MAX;
    assert_eq!(new_client(&request("A", "1"), &mut state), Some(NewClientReply::Created { id: u16::MAX }));
    assert_eq!(state.next_id, 0);
    assert_eq!(new_client(&request("B", "2"), &mut state), Some(NewClientReply::Created { id: 0 }));
    assert_eq!(state.next_id, 1);
}

#[test]
fn new_client_starts_at_zero_balance() {
    let state = registered(&["100"]);
    let report = client_balance(1, &state);
    assert_eq!(report.client_id, 1);
    assert_eq!(report.balance, Some(Money::zero()));
    let c = report.client.as_ref().unwrap();
    assert_eq!(c.id(), 1);
    assert_eq!(c.document_number(), "100");
    assert_eq!(report.status(), 200);
}

#[test]
fn balance_of_unknown_client() {
    let state = registered(&["100"]);
    let report = client_balance(9, &state);
    assert_eq!(report.balance, None);
    assert!(report.client.is_none());
    assert_eq!(report.status(), 200);
}

#[test]
fn find_client_by_id_finds_the_client() {
    let state = registered(&["100", "200"]);
    assert_eq!(Client::find_client_by_id(&state.clients, 2).unwrap().document_number(), "200");
    assert!(Client::find_client_by_id(&state.clients, 3).is_none());
}

#[test]
fn dni_exists_checks_documents() {
    let state = registered(&["100", "200"]);
    assert!(Client::dni_exists("200".to_string(), &state.clients));
    assert!(!Client::dni_exists("300".to_string(), &state.clients));
}

#[test]
fn credits_and_debits_add_up() {
    let mut state = registered(&["100"]);
    let r = Client::credit_transaction(&transaction(integer_field(1), amount_field(money(false, 2, 1050))), &mut state);
    assert_eq!(r, Ok((1, money(false, 2, 1050))));
    let r = Client::credit_transaction(&transaction(integer_field(1), amount_field(money(false, 2, 125))), &mut state);
    assert_eq!(r, Ok((1, money(false, 2, 1175))));
    let r = Client::debit_transaction(&transaction(integer_field(1), amount_field(money(false, 2, 75))), &mut state);
    assert_eq!(r, Ok((1, money(false, 2, 1100))));
    assert_eq!(client_balance(1, &state).balance, Some(money(false, 2, 1100)));
}

#[test]
fn debit_below_zero_goes_negative() {
    let mut state = registered(&["100"]);
    let r = Client::debit_transaction(&transaction(integer_field(1), amount_field(money(false, 0, 5))), &mut state);
    assert_eq!(r, Ok((1, money(true, 0, 5))));
    let r = Client::credit_transaction(&transaction(integer_field(1), amount_field(money(false, 1, 25))), &mut state);
    assert_eq!(r, Ok((1, money(true, 1, 25))));
}

#[test]
fn zero_credit_keeps_balance() {
    let mut state = registered(&["100"]);
    Client::credit_transaction(&transaction(integer_field(1), amount_field(money(false, 0, 3))), &mut state).unwrap();
    let r = Client::credit_transaction(&transaction(integer_field(1), amount_field(money(false, 4, 0))), &mut state);
    assert_eq!(r, Ok((1, money(false, 0, 3))));
}

#[test]
fn missing_client_id_is_internal_error() {
    let mut state = registered(&["100"]);
    let t = TransactionData { fields: vec![("credit_amount".to_string(), amount_field(money(false, 0, 1)))] };
    assert_eq!(Client::credit_transaction(&t, &mut state), Err("Error interno".to_string()));
}

#[test]
fn non_integer_client_id_is_internal_error() {
    let mut state = registered(&["100"]);
    let t = transaction(amount_field(money(false, 1, 15)), amount_field(money(false, 0, 1)));
    assert_eq!(Client::credit_transaction(&t, &mut state), Err("Error interno".to_string()));
}

#[test]
fn client_id_above_u16_is_range_error() {
    let mut state = registered(&["100"]);
    let t = transaction(integer_field(70000), amount_field(money(false, 0, 1)));
    assert_eq!(Client::credit_transaction(&t, &mut state), Err("El valor excede el rango de u16".to_string()));
}

#[test]
fn missing_amount_is_internal_error() {
    let mut state = registered(&["100"]);
    let t = TransactionData { fields: vec![("client_id".to_string(), integer_field(1))] };
    assert_eq!(Client::debit_transaction(&t, &mut state), Err("Error interno".to_string()));
}

#[test]
fn non_number_amount_is_internal_error() {
    let mut state = registered(&["100"]);
    let t = transaction(integer_field(1), FieldValue { unsigned: None, amount: AmountReading::NotANumber });
    assert_eq!(Client::credit_transaction(&t, &mut state), Err("Error interno".to_string()));
}

#[test]
fn unknown_client_is_refused() {
    let mut state = registered(&["100"]);
    let t = transaction(integer_field(5), amount_field(money(false, 0, 1)));
    assert_eq!(Client::credit_transaction(&t, &mut state), Err("El usuario no existe".to_string()));
    assert_eq!(client_balance(1, &state).balance, Some(Money::zero()));
}

#[test]
fn debit_reads_the_credit_amount_field() {
    let mut state = registered(&["100"]);
    let t = TransactionData {
        fields: vec![
            ("client_id".to_string(), integer_field(1)),
            ("debit_amount".to_string(), amount_field(money(false, 0, 1))),
        ],
    };
    assert_eq!(Client::debit_transaction(&t, &mut state), Err("Error interno".to_string()));
}

#[test]
fn handler_replies() {
    let mut state = registered(&["100"]);
    let ok = new_credit_transaction(&transaction(integer_field(1), amount_field(money(false, 0, 8))), &mut state);
    match ok {
        Some(TransactionReply::Completed { user_id, new_balance }) => {
            assert_eq!(user_id, 1);
            assert_eq!(new_balance, money(false, 0, 8));
        }
        _ => panic!("expected a completed credit"),
    }
    let bad = new_debit_transaction(&transaction(integer_field(2), amount_field(money(false, 0, 8))), &mut state);
    assert!(matches!(bad, Some(TransactionReply::Rejected)));
    assert_eq!(TransactionReply::Rejected.status(), 400);
    assert_eq!(ok.unwrap().status(), 200);
}

#[test]
fn unrepresentable_amount_cannot_be_carried_out() {
    let mut state = registered(&["100"]);
    let t = transaction(integer_field(1), FieldValue { unsigned: None, amount: AmountReading::OutOfRange });
    assert!(!Client::transaction_possible(&t, &state, false));
    assert!(new_credit_transaction(&t, &mut state).is_none());
    // an unreadable id is reported before the amount is read
    let t = transaction(integer_field(70000), FieldValue { unsigned: None, amount: AmountReading::OutOfRange });
    assert!(matches!(new_credit_transaction(&t, &mut state), Some(TransactionReply::Rejected)));
}

#[test]
fn overflowing_balance_cannot_be_carried_out() {
    let mut state = registered(&["100"]);
    let max = money(false, 0, (1u128 << 96) - 1);
    let t = transaction(integer_field(1), amount_field(max));
    assert!(matches!(new_credit_transaction(&t, &mut state), Some(TransactionReply::Completed { .. })));
    let one = transaction(integer_field(1), amount_field(money(false, 0, 1)));
    assert!(!Client::transaction_possible(&one, &state, false));
    assert!(new_credit_transaction(&one, &mut state).is_none());
    assert_eq!(client_balance(1, &state).balance, Some(max));
    assert!(Client::transaction_possible(&one, &state, true));
}

#[test]
fn store_lists_then_clears_balances() {
    let mut state = registered(&["100", "200"]);
    Client::credit_transaction(&transaction(integer_field(2), amount_field(money(false, 1, 55))), &mut state).unwrap();
    let entries = state.balance_entries();
    assert_eq!(entries, vec![(1, Money::zero()), (2, money(false, 1, 55))]);
    state.reset_balances();
    assert_eq!(state.balance_entries(), vec![(1, Money::zero()), (2, Money::zero())]);
    assert_eq!(state.clients.len(), 2);
}

#[test]
fn ids_exhausted_only_when_all_taken() {
    let state = registered(&["100"]);
    assert!(!Client::ids_exhausted(&state.clients));
}

#[test]
fn money_parts_in_range() {
    assert!(Money::from_parts(false, 28, 1).is_some());
    assert!(Money::from_parts(false, 29, 1).is_none());
    assert!(Money::from_parts(true, 0, (1u128 << 96) - 1).is_some());
    assert!(Money::from_parts(true, 0, 1u128 << 96).is_none());
}

fn balances_only(entries: &[(u16, Money)]) -> AppState {
    let mut state = AppState::new();
    for (id, b) in entries {
        state.balances.insert(*id, *b);
    }
    state
}

#[test]
fn balance_without_client_range_error() {
    let mut state = balances_only(&[(1, money(false, 0, 5))]);
    let t = transaction(integer_field(65537), integer_field(10));
    assert_eq!(Client::credit_transaction(&t, &mut state), Err("El valor excede el rango de u16".to_string()));
    assert_eq!(state.balances.get(&1), Some(&money(false, 0, 5)));
    assert_eq!(state.balances.len(), 1);
}

#[test]
fn balance_without_client_credit() {
    let mut state = balances_only(&[(1, money(false, 0, 5)), (2, money(false, 0, 7))]);
    let t = transaction(integer_field(1), amount_field(money(false, 1, 25)));
    assert_eq!(Client::credit_transaction(&t, &mut state), Ok((1, money(false, 1, 75))));
    assert_eq!(state.balances.get(&1), Some(&money(false, 1, 75)));
    assert_eq!(state.balances.get(&2), Some(&money(false, 0, 7)));
}

#[test]
fn balance_without_client_debit() {
    let mut state = balances_only(&[(1, money(false, 0, 100))]);
    let t = transaction(integer_field(1), integer_field(30));
    assert_eq!(Client::debit_transaction(&t, &mut state), Ok((1, money(false, 0, 70))));
    let mut state = balances_only(&[(1, money(false, 0, 10))]);
    let t = transaction(integer_field(1), integer_field(25));
    assert_eq!(Client::debit_transaction(&t, &mut state), Ok((1, money(true, 0, 15))));
}

#[test]
fn balance_without_client_debit_amount_key() {
    let mut state = balances_only(&[(1, money(false, 0, 100))]);
    let t = TransactionData {
        fields: vec![
            ("client_id".to_string(), integer_field(1)),
            ("debit_amount".to_string(), integer_field(30)),
        ],
    };
    assert_eq!(Client::debit_transaction(&t, &mut state), Err("Error interno".to_string()));
    assert_eq!(state.balances.get(&1), Some(&money(false, 0, 100)));
}

#[test]
fn balance_without_client_handlers() {
    let mut state = balances_only(&[(1, money(false, 0, 5))]);
    match new_credit_transaction(&transaction(integer_field(1), integer_field(10)), &mut state) {
        Some(TransactionReply::Completed { user_id, new_balance }) => {
            assert_eq!(user_id, 1);
            assert_eq!(new_balance, money(false, 0, 15));
        }
        _ => panic!("expected a completed credit"),
    }
    let mut state = balances_only(&[(1, money(false, 0, 100))]);
    match new_debit_transaction(&transaction(integer_field(1), integer_field(30)), &mut state) {
        Some(TransactionReply::Completed { user_id, new_balance }) => {
            assert_eq!(user_id, 1);
            assert_eq!(new_balance, money(false, 0, 70));
        }
        _ => panic!("expected a completed debit"),
    }
}

#[test]
fn credits_commute_and_debit_undoes_credit() {
    let x1 = money(false, 1, 25);
    let x2 = money(false, 2, 310);
    let mut a = balances_only(&[(1, money(false, 0, 5))]);
    let mut b = balances_only(&[(1, money(false, 0, 5))]);
    Client::credit_transaction(&transaction(integer_field(1), amount_field(x1)), &mut a).unwrap();
    let ra = Client::credit_transaction(&transaction(integer_field(1), amount_field(x2)), &mut a);
    Client::credit_transaction(&transaction(integer_field(1), amount_field(x2)), &mut b).unwrap();
    let rb = Client::credit_transaction(&transaction(integer_field(1), amount_field(x1)), &mut b);
    assert_eq!(ra, rb);
    assert_eq!(ra, Ok((1, money(false, 2, 1060))));
    let back = Client::debit_transaction(&transaction(integer_field(1), amount_field(x2)), &mut a);
    assert_eq!(back, Ok((1, money(false, 2, 750))));
}

#[test]
fn debit_is_credit_of_negation() {
    let mut a = balances_only(&[(1, money(false, 0, 5))]);
    let mut b = balances_only(&[(1, money(false, 0, 5))]);
    let x = money(false, 1, 25);
    let neg = money(true, 1, 25);
    assert_eq!(
        Client::debit_transaction(&transaction(integer_field(1), amount_field(x)), &mut a),
        Client::credit_transaction(&transaction(integer_field(1), amount_field(neg)), &mut b)
    );
}

#[test]
fn entries_and_reset_cover_every_balance() {
    let mut state = balances_only(&[(9, money(false, 0, 1)), (3, money(true, 1, 2))]);
    assert_eq!(state.balance_entries(), vec![(3, money(true, 1, 2)), (9, money(false, 0, 1))]);
    state.reset_balances();
    assert_eq!(state.balance_entries(), vec![(3, Money::zero()), (9, Money::zero())]);
}

fn decimal_text_of(m: Money) -> String {
    let mut d = rust_decimal::Decimal::from_i128_with_scale(m.magnitude as i128, m.scale);
    d.set_sign_negative(m.negative);
    d.to_string()
}

#[test]
fn balance_lines_write_id_and_decimal() {
    let entries = vec![
        (3u16, money(true, 1, 2)),
        (9, money(false, 0, 1)),
        (10, money(false, 3, 5)),
        (65535, money(false, 2, 0)),
        (0, money(true, 0, 0)),
    ];
    let lines = client_service::client_handler::balance_lines(&entries);
    assert_eq!(lines, vec!["3 -0.2", "9 1", "10 0.005", "65535 0.00", "0 -0"]);
    for (line, (id, m)) in lines.iter().zip(entries.iter()) {
        assert_eq!(*line, format!("{} {}", id, decimal_text_of(*m)));
    }
}

#[test]
fn decimal_text_agrees_with_rust_decimal() {
    let mut seed: u64 = 5;
    let mut entries = Vec::new();
    for i in 0..2000u32 {
        seed = seed.wrapping_mul(6364136223846793005).wrapping_add(1442695040888963407);
        let bits = (seed >> 33) % 97;
        let mag = if bits == 0 { 0 } else { ((seed as u128) * 0x9E37_79B9_7F4A_7C15_F39C_C060u128) & ((1u128 << bits) - 1) };
        entries.push(((i % 60000) as u16, money(seed % 3 == 0, ((seed >> 7) % 29) as u32, mag)));
    }
    let lines = client_service::client_handler::balance_lines(&entries);
    for (line, (id, m)) in lines.iter().zip(entries.iter()) {
        assert_eq!(*line, format!("{} {}", id, decimal_text_of(*m)));
    }
}

#[test]
fn reply_bodies() {
    assert_eq!(NewClientReply::Created { id: 12 }.body(), "ID del nuevo cliente: 12");
    assert_eq!(NewClientReply::DocumentExists.body(), "El número de documento ya existe");
    let done = TransactionReply::Completed { user_id: 1, new_balance: money(false, 1, 75) };
    assert_eq!(done.body(), "Transacción exitosa user_id 1: new_balance 7.5");
    assert_eq!(TransactionReply::Rejected.body(), "El ID o valor ingresado no es válido");
    let state = registered(&["100"]);
    let report = client_balance(1, &state);
    assert_eq!(report.body("{}"), "Balance del cliente ID 1: 0 \nDatos del cliente: {}");
    let report = client_balance(4, &state);
    assert_eq!(report.body("null"), "Balance del cliente ID 4: Cliente no encontrado \nDatos del cliente: null");
}
