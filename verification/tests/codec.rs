//! The flat-file codec: one line per entity, commas between fields, a
//! blank line ending the data, defaults for bad cells, and the one
//! fatal case — a malformed transaction date.
use budget_tracker::account::Account;
use budget_tracker::category::Category;
use budget_tracker::data::{Data, LedgerError};
use budget_tracker::date::Date;
use budget_tracker::parse_file;
use budget_tracker::transaction::Transaction;

fn day(year: u16, month: u8, day: u8) -> Date {
    Date { year, month, day, hour: 0, minute: 0, second: 0, milli: 0 }
}

#[test]
fn account_line_holds_name_and_value() {
    let mut a = Account::new(String::from("Checking"));
    a.set_value(75000);
    assert_eq!(a.to_cls(), "Checking,75\n");
}

#[test]
fn category_line_holds_name_target_and_actual() {
    let c = Category::new(String::from("Groceries"), &String::from("100"));
    assert_eq!(c.to_cls(), "Groceries,100,0\n");
}

#[test]
fn transaction_line_holds_all_five_fields() {
    let t = Transaction::build(
        day(2023, 1, 15),
        -25005,
        String::from("Checking"),
        String::from("Groceries"),
        String::from("weekly shop"),
    );
    assert_eq!(t.to_cls(), "2023-01-15T00:00:00.000Z,-25.005,Checking,Groceries,weekly shop\n");
}

#[test]
fn accounts_round_trip_through_the_codec() {
    let mut data = Data::new();
    let mut a = Account::new(String::from("Checking"));
    a.set_value(75000);
    let mut b = Account::new(String::from("Savings"));
    b.set_value(-20500);
    data.accounts.push(a);
    data.accounts.push(b);
    let text = data.to_cls(&String::from("Account.cls"));
    assert_eq!(text, "Checking,75\nSavings,-20.5\n");
    let mut loaded = Data::new();
    loaded.build_accounts(text);
    assert_eq!(loaded.accounts.len(), 2);
    assert_eq!(loaded.accounts[0].get_name(), "Checking");
    assert_eq!(loaded.accounts[0].get_value(), 75000);
    assert_eq!(loaded.accounts[1].get_name(), "Savings");
    assert_eq!(loaded.accounts[1].get_value(), -20500);
}

#[test]
fn categories_round_trip_through_the_codec() {
    let mut data = Data::new();
    let mut c = Category::new(String::from("Groceries"), &String::from("100.25"));
    c.set_actual(-74995);
    data.categories.push(c);
    let text = data.to_cls(&String::from("Category.cls"));
    assert_eq!(text, "Groceries,100.25,-74.995\n");
    let mut loaded = Data::new();
    loaded.build_categories(text);
    assert_eq!(loaded.categories.len(), 1);
    assert_eq!(loaded.categories[0].get_name(), "Groceries");
    assert_eq!(loaded.categories[0].get_expected(), 100250);
    assert_eq!(loaded.categories[0].get_actual(), -74995);
}

#[test]
fn transactions_round_trip_through_the_codec() {
    let mut data = Data::new();
    data.transactions.push(Transaction::build(
        Date { year: 2023, month: 6, day: 2, hour: 11, minute: 30, second: 5, milli: 123 },
        99990,
        String::from("Checking"),
        String::from("Transfer"),
        String::from("moving money"),
    ));
    let text = data.to_cls(&String::from("Transaction.cls"));
    let mut loaded = Data::new();
    assert!(loaded.build_transactions(text).is_ok());
    assert_eq!(loaded.transactions.len(), 1);
    let t = &loaded.transactions[0];
    assert_eq!(t.date.year, 2023);
    assert_eq!(t.date.milli, 123);
    assert_eq!(t.get_amount(), 99990);
    assert_eq!(t.get_account(), "Checking");
    assert_eq!(t.get_category(), "Transfer");
    assert_eq!(t.get_description(), "moving money");
}

#[test]
fn decoded_entities_get_fresh_identifiers() {
    let mut data = Data::new();
    let a = Account::new(String::from("Checking"));
    let original_id = a.get_simple_id();
    data.accounts.push(a);
    let text = data.to_cls(&String::from("Account.cls"));
    let mut loaded = Data::new();
    loaded.build_accounts(text);
    // ids are never persisted; a fresh random one makes a collision
    // across 24 bits overwhelmingly unlikely, so allow one retry
    let reloaded_id = loaded.accounts[0].get_simple_id();
    if reloaded_id == original_id {
        let mut again = Data::new();
        again.build_accounts(loaded.to_cls(&String::from("Account.cls")));
        assert_ne!(again.accounts[0].get_simple_id(), original_id);
    }
}

#[test]
fn blank_line_ends_the_data() {
    let mut data = Data::new();
    data.build_accounts(String::from("A,1\n\nB,2\n"));
    assert_eq!(data.accounts.len(), 1);
    assert_eq!(data.accounts[0].get_name(), "A");
}

#[test]
fn missing_cells_default() {
    let mut data = Data::new();
    data.build_accounts(String::from("OnlyName\n"));
    assert_eq!(data.accounts.len(), 1);
    assert_eq!(data.accounts[0].get_name(), "OnlyName");
    assert_eq!(data.accounts[0].get_value(), 0);
    data.build_categories(String::from("C\n"));
    assert_eq!(data.categories[0].get_expected(), 0);
    assert_eq!(data.categories[0].get_actual(), 0);
}

#[test]
fn malformed_numeric_cells_default_to_zero() {
    let mut data = Data::new();
    data.build_accounts(String::from("A,notanumber\n"));
    assert_eq!(data.accounts[0].get_value(), 0);
}

#[test]
fn malformed_transaction_date_fails_the_load() {
    let mut data = Data::new();
    let r = data.build_transactions(String::from("not-a-date,5,A,C,d\n"));
    assert_eq!(r, Err(LedgerError::BadDate));
    assert_eq!(data.transactions.len(), 0);
}

#[test]
fn unexpected_path_encodes_nothing() {
    let data = Data::new();
    assert_eq!(data.to_cls(&String::from("Other.cls")), "");
}

#[test]
fn parse_file_dispatches_on_the_file_name() {
    let mut data = Data::new();
    assert!(parse_file(&mut data, String::from("A,1\n"), &String::from("x/Account.cls")).is_ok());
    assert_eq!(data.accounts.len(), 1);
    assert!(parse_file(&mut data, String::from("C,2,3\n"), &String::from("x/Category.cls")).is_ok());
    assert_eq!(data.categories.len(), 1);
    assert!(parse_file(
        &mut data,
        String::from("2023-01-15T00:00:00.000Z,1,A,C,d\n"),
        &String::from("x/Transaction.cls"),
    )
        .is_ok());
    assert_eq!(data.transactions.len(), 1);
    // an unexpected name changes nothing
    assert!(parse_file(&mut data, String::from("whatever"), &String::from("x/Other.bin")).is_ok());
    assert_eq!(data.accounts.len(), 1);
    assert_eq!(data.categories.len(), 1);
    assert_eq!(data.transactions.len(), 1);
}

#[test]
fn embedded_commas_corrupt_the_round_trip() {
    // the format does not escape commas: the description is truncated
    let mut data = Data::new();
    data.transactions.push(Transaction::build(
        day(2023, 1, 1),
        1000,
        String::from("A"),
        String::from("C"),
        String::from("one, two"),
    ));
    let text = data.to_cls(&String::from("Transaction.cls"));
    let mut loaded = Data::new();
    assert!(loaded.build_transactions(text).is_ok());
    assert_eq!(loaded.transactions[0].get_description(), "one");
}
