//! The consistency engine: recompute, transfer exclusion, rename and
//! delete cascades, rollover, search, and the read-eval step.
use budget_tracker::account::{Account, AccountField};
use budget_tracker::category::{Category, CategoryField};
use budget_tracker::data::{AddCmd, Data, DataType};
use budget_tracker::date::{first_of_month, Date};
use budget_tracker::transaction::Transaction;
use budget_tracker::{get_dir_path, run, Action, Command};

fn day(year: u16, month: u8, day: u8) -> Date {
    Date { year, month, day, hour: 0, minute: 0, second: 0, milli: 0 }
}

fn tx(amount: i64, account: &str, category: &str) -> Transaction {
    Transaction::build(
        day(2023, 1, 15),
        amount,
        String::from(account),
        String::from(category),
        String::from("d"),
    )
}

#[test]
fn recompute_rounds_half_away_from_zero() {
    // 100.00 and -25.005 leave 74.995, stored as 75.00
    let mut data = Data::new();
    data.accounts.push(Account::new(String::from("Checking")));
    data.add(AddCmd::Transaction {
        date: day(2023, 1, 2),
        amount: String::from("100.00"),
        account: String::from("Checking"),
        category: String::from("Groceries"),
        description: String::from("in"),
    });
    data.add(AddCmd::Transaction {
        date: day(2023, 1, 3),
        amount: String::from("-25.005"),
        account: String::from("Checking"),
        category: String::from("Groceries"),
        description: String::from("out"),
    });
    assert!(data.update().is_ok());
    assert_eq!(data.accounts[0].get_value(), 75000);
}

#[test]
fn recompute_is_idempotent() {
    let mut data = Data::new();
    data.accounts.push(Account::new(String::from("A")));
    data.categories.push(Category::new(String::from("C"), &String::from("10")));
    data.transactions.push(tx(33333, "A", "C"));
    data.transactions.push(tx(-11111, "A", "C"));
    assert!(data.update().is_ok());
    let v1 = data.accounts[0].get_value();
    let a1 = data.categories[0].get_actual();
    assert!(data.update().is_ok());
    assert_eq!(data.accounts[0].get_value(), v1);
    assert_eq!(data.categories[0].get_actual(), a1);
}

#[test]
fn unreferenced_names_are_reset_to_zero() {
    let mut data = Data::new();
    let mut a = Account::new(String::from("Idle"));
    a.set_value(123450);
    data.accounts.push(a);
    let mut c = Category::new(String::from("Unused"), &String::from("5"));
    c.set_actual(77700);
    data.categories.push(c);
    assert!(data.update().is_ok());
    assert_eq!(data.accounts[0].get_value(), 0);
    assert_eq!(data.categories[0].get_actual(), 0);
    // the user-set target is not derived, so it stays
    assert_eq!(data.categories[0].get_expected(), 5000);
}

#[test]
fn transfers_count_for_accounts_but_never_for_categories() {
    let mut data = Data::new();
    data.accounts.push(Account::new(String::from("Checking")));
    data.categories.push(Category::new(String::from("Transfer"), &String::from("0")));
    data.categories.push(Category::new(String::from("Groceries"), &String::from("0")));
    data.transactions.push(tx(50000, "Checking", "Transfer"));
    data.transactions.push(tx(10000, "Checking", "Groceries"));
    assert!(data.update().is_ok());
    assert_eq!(data.accounts[0].get_value(), 60000);
    assert_eq!(data.categories[0].get_actual(), 0);
    assert_eq!(data.categories[1].get_actual(), 10000);
}

#[test]
fn adding_a_transfer_appends_both_legs() {
    let mut data = Data::new();
    data.add(AddCmd::Transfer {
        date: day(2023, 3, 1),
        amount: String::from("25"),
        from_account: String::from("Checking"),
        to_account: String::from("Savings"),
        description: String::from("monthly move"),
    });
    assert_eq!(data.transactions.len(), 2);
    assert_eq!(data.transactions[0].get_amount(), -25000);
    assert_eq!(data.transactions[0].get_account(), "Checking");
    assert_eq!(data.transactions[0].get_category(), "Transfer");
    assert_eq!(data.transactions[1].get_amount(), 25000);
    assert_eq!(data.transactions[1].get_account(), "Savings");
    assert_eq!(data.transactions[1].get_category(), "Transfer");
}

#[test]
fn renaming_an_account_cascades_into_matching_transactions_only() {
    let mut data = Data::new();
    data.accounts.push(Account::new(String::from("Checking")));
    data.accounts.push(Account::new(String::from("Savings")));
    data.transactions.push(tx(1000, "Checking", "C"));
    data.transactions.push(tx(2000, "Savings", "C"));
    data.transactions.push(tx(3000, "Checking", "C"));
    let query = data.accounts[0].get_simple_id();
    data.edit(
        DataType::Account,
        &query,
        &String::from("name"),
        &String::from("Chequing"),
    );
    assert_eq!(data.accounts[0].get_name(), "Chequing");
    assert_eq!(data.transactions[0].get_account(), "Chequing");
    assert_eq!(data.transactions[1].get_account(), "Savings");
    assert_eq!(data.transactions[2].get_account(), "Chequing");
}

#[test]
fn renaming_a_category_cascades_too() {
    let mut data = Data::new();
    data.categories.push(Category::new(String::from("Food"), &String::from("0")));
    data.transactions.push(tx(1000, "A", "Food"));
    data.transactions.push(tx(2000, "A", "Rent"));
    let query = data.categories[0].get_simple_id();
    data.edit(DataType::Category, &query, &String::from("name"), &String::from("Meals"));
    assert_eq!(data.categories[0].get_name(), "Meals");
    assert_eq!(data.transactions[0].get_category(), "Meals");
    assert_eq!(data.transactions[1].get_category(), "Rent");
}

#[test]
fn entity_level_edits_report_what_changed() {
    let mut a = Account::new(String::from("Checking"));
    match a.edit(&String::from("name"), &String::from("Chequing")) {
        AccountField::Name(old, new) => {
            assert_eq!(old, "Checking");
            assert_eq!(new, "Chequing");
        },
        _ => panic!("a rename must report both names for the cascade"),
    }
    assert!(matches!(a.edit(&String::from("value"), &String::from("5")), AccountField::Value));
    assert_eq!(a.get_value(), 5000);
    assert!(matches!(a.edit(&String::from("other"), &String::from("x")), AccountField::Unchanged));
    let mut c = Category::new(String::from("Food"), &String::from("0"));
    match c.edit(&String::from("name"), &String::from("Meals")) {
        CategoryField::Name(old, new) => {
            assert_eq!(old, "Food");
            assert_eq!(new, "Meals");
        },
        _ => panic!("a rename must report both names for the cascade"),
    }
    assert!(matches!(
        c.edit(&String::from("expected"), &String::from("2.5")),
        CategoryField::Expected
    ));
    assert_eq!(c.get_expected(), 2500);
    assert!(matches!(c.edit(&String::from("actual"), &String::from("9")), CategoryField::Unchanged));
}

#[test]
fn editing_money_fields_parses_the_payload() {
    let mut data = Data::new();
    data.accounts.push(Account::new(String::from("A")));
    let query = data.accounts[0].get_simple_id();
    data.edit(DataType::Account, &query, &String::from("value"), &String::from("12.5"));
    assert_eq!(data.accounts[0].get_value(), 12500);
    data.categories.push(Category::new(String::from("C"), &String::from("0")));
    let query = data.categories[0].get_simple_id();
    data.edit(DataType::Category, &query, &String::from("expected"), &String::from("-3"));
    assert_eq!(data.categories[0].get_expected(), -3000);
    // an unknown field name changes nothing
    data.edit(DataType::Account, &data.accounts[0].get_simple_id(), &String::from("nope"), &String::from("9"));
    assert_eq!(data.accounts[0].get_value(), 12500);
}

#[test]
fn editing_a_transaction_field_in_place() {
    let mut data = Data::new();
    data.transactions.push(tx(1000, "A", "C"));
    let query = data.transactions[0].get_simple_id();
    data.edit(
        DataType::Transaction,
        &query,
        &String::from("description"),
        &String::from("new words"),
    );
    assert_eq!(data.transactions[0].get_description(), "new words");
    data.edit(DataType::Transaction, &query, &String::from("amount"), &String::from("7.25"));
    assert_eq!(data.transactions[0].get_amount(), 7250);
    data.edit(
        DataType::Transaction,
        &query,
        &String::from("date"),
        &String::from("2024-02-29T00:00:00.000Z"),
    );
    assert_eq!(data.transactions[0].date, day(2024, 2, 29));
    // a malformed date payload leaves the date unchanged
    data.edit(DataType::Transaction, &query, &String::from("date"), &String::from("bad"));
    assert_eq!(data.transactions[0].date, day(2024, 2, 29));
}

#[test]
fn a_missed_lookup_is_a_silent_no_op() {
    let mut data = Data::new();
    data.accounts.push(Account::new(String::from("A")));
    // a query longer than any six-character id display cannot match
    let query = String::from("zzzzzzzz");
    data.edit(DataType::Account, &query, &String::from("name"), &String::from("B"));
    assert_eq!(data.accounts[0].get_name(), "A");
    data.delete(DataType::Account, &query);
    assert_eq!(data.accounts.len(), 1);
}

#[test]
fn deleting_a_category_tombstones_its_transactions() {
    let mut data = Data::new();
    data.categories.push(Category::new(String::from("Groceries"), &String::from("0")));
    data.transactions.push(tx(1000, "A", "Groceries"));
    data.transactions.push(tx(2000, "A", "Rent"));
    let query = data.categories[0].get_simple_id();
    data.delete(DataType::Category, &query);
    assert_eq!(data.categories.len(), 0);
    // the transactions still exist; only the reference is tombstoned
    assert_eq!(data.transactions.len(), 2);
    assert_eq!(data.transactions[0].get_category(), "<empty>");
    assert_eq!(data.transactions[1].get_category(), "Rent");
}

#[test]
fn deleting_an_account_tombstones_its_transactions() {
    let mut data = Data::new();
    data.accounts.push(Account::new(String::from("Old")));
    data.transactions.push(tx(1000, "Old", "C"));
    let query = data.accounts[0].get_simple_id();
    data.delete(DataType::Account, &query);
    assert_eq!(data.accounts.len(), 0);
    assert_eq!(data.transactions.len(), 1);
    assert_eq!(data.transactions[0].get_account(), "<empty>");
}

#[test]
fn deleting_a_transaction_cascades_into_nothing() {
    let mut data = Data::new();
    data.transactions.push(tx(1000, "A", "C"));
    data.transactions.push(tx(2000, "B", "C"));
    let query = data.transactions[0].get_simple_id();
    data.delete(DataType::Transaction, &query);
    assert_eq!(data.transactions.len(), 1);
    assert_eq!(data.transactions[0].get_account(), "B");
}

#[test]
fn rollover_reseeds_one_transaction_per_account() {
    let mut data = Data::new();
    data.accounts.push(Account::new(String::from("Checking")));
    data.accounts.push(Account::new(String::from("Savings")));
    data.transactions.push(tx(500000, "Checking", "C"));
    data.transactions.push(tx(-20500, "Savings", "C"));
    // recomputed values: 500.00 and -20.50
    let first = first_of_month(2023, 2);
    let snap = data.roll(first, &String::from("February")).unwrap();
    assert_eq!(data.transactions.len(), 2);
    for t in &data.transactions {
        assert_eq!(t.date, day(2023, 2, 1));
        assert_eq!(t.get_category(), "Rollover");
        assert_eq!(t.get_description(), "rolling into February");
    }
    assert_eq!(data.transactions[0].get_account(), "Checking");
    assert_eq!(data.transactions[0].get_amount(), 500000);
    assert_eq!(data.transactions[1].get_account(), "Savings");
    assert_eq!(data.transactions[1].get_amount(), -20500);
    // accounts and categories themselves are kept
    assert_eq!(data.accounts.len(), 2);
    // the snapshot holds the closing period, transactions included
    assert!(snap.transactions.contains("Checking"));
    assert_eq!(snap.accounts, "Checking,500\nSavings,-20.5\n");
    // the next recompute reproduces each carried-forward value
    assert!(data.update().is_ok());
    assert_eq!(data.accounts[0].get_value(), 500000);
    assert_eq!(data.accounts[1].get_value(), -20500);
}

#[test]
fn search_matches_dates_names_and_descriptions() {
    let mut data = Data::new();
    data.transactions.push(tx(1000, "Checking", "Food"));
    data.transactions.push(tx(2000, "Savings", "Rent"));
    assert_eq!(data.search(&String::from("Check")), vec![0]);
    assert_eq!(data.search(&String::from("Rent")), vec![1]);
    assert_eq!(data.search(&String::from("2023")), vec![0, 1]);
    assert_eq!(data.search(&String::from("nothing")), Vec::<usize>::new());
}

#[test]
fn find_scans_in_insertion_order_and_takes_the_first_match() {
    let mut data = Data::new();
    data.accounts.push(Account::new(String::from("A")));
    data.accounts.push(Account::new(String::from("B")));
    // the empty query is contained in every id display, so the first wins
    let idx = Account::find(&data.accounts, "");
    assert_eq!(idx, 0);
    assert_eq!(Account::find(&data.accounts, "not-hex"), -1);
}

#[test]
fn totals_skip_the_rollover_category() {
    let mut data = Data::new();
    let mut a = Account::new(String::from("A"));
    a.set_value(10000);
    let mut b = Account::new(String::from("B"));
    b.set_value(-2500);
    data.accounts.push(a);
    data.accounts.push(b);
    assert_eq!(data.account_total(), 7500);
    let mut c = Category::new(String::from("Food"), &String::from("3"));
    c.set_actual(1000);
    let mut r = Category::new(String::from("Rollover"), &String::from("99"));
    r.set_actual(88000);
    data.categories.push(c);
    data.categories.push(r);
    let (expected, actual) = data.category_totals();
    assert_eq!(expected, 3000);
    assert_eq!(actual, 1000);
}

#[test]
fn run_dispatches_commands_and_reports_actions() {
    let mut data = Data::new();
    assert!(matches!(run(&mut data, Command::Help), Action::ShowHelp));
    assert!(matches!(run(&mut data, Command::Empty), Action::Continue));
    assert!(matches!(run(&mut data, Command::Update), Action::Continue));
    let r = run(
        &mut data,
        Command::Add(AddCmd::Account { name: String::from("Checking") }),
    );
    assert!(matches!(r, Action::Continue));
    assert_eq!(data.accounts.len(), 1);
    let r = run(&mut data, Command::Quit);
    match r {
        Action::SaveAndStop(snap) => assert_eq!(snap.accounts, "Checking,0\n"),
        _ => panic!("quit must save and stop"),
    }
    assert!(matches!(run(&mut data, Command::List(DataType::Account)), Action::Show(_)));
    assert!(matches!(run(&mut data, Command::Search(String::from("x"))), Action::Matches(_)));
    let r = run(
        &mut data,
        Command::RollOver(first_of_month(2023, 2), String::from("February")),
    );
    match r {
        Action::Save(_) => {},
        _ => panic!("rollover must hand back a snapshot to persist"),
    }
    assert_eq!(data.transactions.len(), 1);
    assert!(matches!(run(&mut data, Command::Cancel), Action::Stop));
}

#[test]
fn period_directory_is_root_year_month() {
    let d = get_dir_path(&String::from("/home/someone"), String::from("2023"), String::from("7"));
    assert_eq!(d.full, "/home/someone/budget_tracker/2023/7");
    assert_eq!(d.year, "2023");
    assert_eq!(d.month, "7");
}

#[test]
fn an_unstorable_total_fails_recompute_and_changes_nothing() {
    // two amounts at the cap sum past it
    let mut data = Data::new();
    data.accounts.push(Account::new(String::from("Big")));
    let cap: i64 = 1_000_000_000_000_000_000;
    data.transactions.push(tx(cap, "Big", "C"));
    data.transactions.push(tx(cap, "Big", "C"));
    assert!(data.update().is_err());
    assert_eq!(data.accounts[0].get_value(), 0);
    assert!(data.roll(first_of_month(2023, 2), &String::from("next")).is_err());
    assert_eq!(data.transactions.len(), 2);
}
