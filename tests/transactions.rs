use ledger_tx::line_item::{LineItem, LineItemBuilder};
use ledger_tx::transaction::{Date, TransactionBuilder, TransactionBuilderError};

fn item(account: &str, is_real: bool, value: i64) -> LineItem {
    LineItemBuilder::new()
        .account(account)
        .value(value)
        .is_real(is_real)
        .try_build()
        .unwrap()
}

fn day() -> Date {
    Date::new(2024, 1, 1).unwrap()
}

#[test]
fn balanced_transaction_builds() {
    let b = TransactionBuilder::new()
        .date(day())
        .desc("test")
        .add_line(item("A", true, 100))
        .add_line(item("B", true, -100))
        .add_line(item("V1", false, 50))
        .add_line(item("V2", false, -50));
    assert_eq!(b.current_real_balance(), 0);
    assert_eq!(b.current_virt_balance(), 0);
    let t = b.balance().unwrap();
    assert_eq!(t.line_items().len(), 4);
    assert_eq!(t.desc(), "test");
    assert_eq!(t.date(), day());
    let real: i64 = t.line_items().iter().filter(|l| l.is_real).map(|l| l.value).sum();
    let virt: i64 = t.line_items().iter().filter(|l| !l.is_real).map(|l| l.value).sum();
    assert_eq!(real, 0);
    assert_eq!(virt, 0);
}

#[test]
fn unbalanced_real_ledger_fails() {
    let r = TransactionBuilder::new()
        .date(day())
        .desc("test")
        .add_line(item("A", true, 100))
        .add_line(item("B", true, 0))
        .add_line(item("V1", false, 50))
        .add_line(item("V2", false, -50))
        .balance();
    assert_eq!(r.unwrap_err(), TransactionBuilderError::DoesNotBalance(100));
}

#[test]
fn unbalanced_virtual_ledger_fails_first() {
    let r = TransactionBuilder::new()
        .date(day())
        .desc("test")
        .line_items(vec![
            item("A", true, 7),
            item("B", true, 0),
            item("V1", false, -30),
        ])
        .balance();
    assert_eq!(r.unwrap_err(), TransactionBuilderError::DoesNotBalance(-30));
}

#[test]
fn missing_parts_fail_in_order() {
    let two = || vec![item("A", true, 1), item("B", true, -1)];
    assert_eq!(
        TransactionBuilder::new().desc("d").line_items(two()).balance().unwrap_err(),
        TransactionBuilderError::MissingDate
    );
    assert_eq!(
        TransactionBuilder::new().date(day()).line_items(two()).balance().unwrap_err(),
        TransactionBuilderError::MissingDesc
    );
    assert_eq!(
        TransactionBuilder::new()
            .date(day())
            .desc("d")
            .add_line(item("A", true, 0))
            .balance()
            .unwrap_err(),
        TransactionBuilderError::NotEnoughLineItems
    );
}

#[test]
fn invalid_dates_are_refused() {
    assert!(Date::new(2023, 2, 29).is_none());
    assert!(Date::new(2024, 2, 29).is_some());
    assert!(Date::new(1900, 2, 29).is_none());
    assert!(Date::new(2000, 2, 29).is_some());
    assert!(Date::new(2024, 4, 31).is_none());
    assert!(Date::new(2024, 13, 1).is_none());
    assert!(Date::new(10000, 1, 1).is_none());
    let bad = Date { year: 2023, month: 2, day: 30 };
    assert_eq!(
        TransactionBuilder::new()
            .date(bad)
            .desc("d")
            .line_items(vec![item("A", true, 1), item("B", true, -1)])
            .balance()
            .unwrap_err(),
        TransactionBuilderError::MissingDate
    );
}

#[test]
fn balances_saturate_at_i64_range() {
    let b = TransactionBuilder::new()
        .add_line(item("A", true, i64::MAX))
        .add_line(item("B", true, i64::MAX));
    assert_eq!(b.current_real_balance(), i64::MAX);
    assert_eq!(b.current_virt_balance(), 0);
}

#[test]
fn transaction_text_lists_items() {
    let t = TransactionBuilder::new()
        .date(Date::new(987, 3, 9).unwrap())
        .desc("Groceries")
        .add_line(item("Assets:Cash", true, -1230))
        .add_line(item("Expenses:Food", true, 1230))
        .balance()
        .unwrap();
    assert_eq!(
        t.to_text(),
        "0987-03-09 Groceries\n    Assets:Cash  \t$-12.30\n    Expenses:Food  \t$12.30"
    );
    assert_eq!(day().to_text(), "2024-01-01");
}
