use ledger_tx::line_item::{LineItem, LineItemBuilder, LineItemBuilderError};
use std::cmp::Ordering;

fn item(account: &str, is_real: bool, value: i64) -> LineItem {
    LineItemBuilder::new()
        .account(account)
        .value(value)
        .is_real(is_real)
        .try_build()
        .unwrap()
}

#[test]
fn parse_real_item() {
    let x = LineItem::parse("Assets:Checking  $100.00").unwrap();
    assert_eq!(x.account, "Assets:Checking");
    assert_eq!(x.value, 10000);
    assert!(x.is_real);
}

#[test]
fn parse_virtual_item() {
    let x = LineItem::parse("[Budget:Food]  $-25.50").unwrap();
    assert_eq!(x.account, "Budget:Food");
    assert_eq!(x.value, -2550);
    assert!(!x.is_real);
}

#[test]
fn parse_without_separator_fails() {
    assert_eq!(
        LineItem::parse("BadLineNoSeparator").unwrap_err(),
        LineItemBuilderError::MissingValue
    );
}

#[test]
fn parse_mismatched_brackets_fails() {
    assert_eq!(
        LineItem::parse("[Budget:Food  $1.00").unwrap_err(),
        LineItemBuilderError::MissingIsReal
    );
    assert_eq!(
        LineItem::parse("Budget:Food]  $1.00").unwrap_err(),
        LineItemBuilderError::MissingIsReal
    );
}

#[test]
fn parse_empty_account_fails() {
    assert_eq!(
        LineItem::parse("  $1.00").unwrap_err(),
        LineItemBuilderError::MissingAccount
    );
    assert_eq!(
        LineItem::parse("[]  $1.00").unwrap_err(),
        LineItemBuilderError::MissingAccount
    );
}

#[test]
fn parse_bad_amount_fails() {
    assert_eq!(
        LineItem::parse("Assets  $abc").unwrap_err(),
        LineItemBuilderError::MissingValue
    );
    assert_eq!(
        LineItem::parse("Assets  $").unwrap_err(),
        LineItemBuilderError::MissingValue
    );
}

#[test]
fn parse_rounds_to_nearest_cent() {
    assert_eq!(LineItem::parse("A  $1.005").unwrap().value, 101);
    assert_eq!(LineItem::parse("A  $1.004").unwrap().value, 100);
    assert_eq!(LineItem::parse("A  $-0.125").unwrap().value, -13);
    assert_eq!(LineItem::parse("A  $12").unwrap().value, 1200);
    assert_eq!(LineItem::parse("A  $.5").unwrap().value, 50);
    assert_eq!(LineItem::parse("A  +3.1").unwrap().value, 310);
}

#[test]
fn parse_cents_mode_reads_whole_cents() {
    let x = LineItem::parse_cents("[Budget:Food]  $-2550").unwrap();
    assert_eq!(x.value, -2550);
    assert!(!x.is_real);
    assert_eq!(
        LineItem::parse_cents("Assets  $25.50").unwrap_err(),
        LineItemBuilderError::MissingValue
    );
    assert_eq!(
        LineItem::parse_cents("Assets  -9223372036854775808").unwrap().value,
        i64::MIN
    );
    assert_eq!(
        LineItem::parse_cents("Assets  9223372036854775808").unwrap_err(),
        LineItemBuilderError::MissingValue
    );
}

#[test]
fn parse_takes_first_and_last_fields() {
    let x = LineItem::parse("Assets:Cash  ignored  $7.00").unwrap();
    assert_eq!(x.account, "Assets:Cash");
    assert_eq!(x.value, 700);
    let y = LineItem::parse("  Assets:Cash   \t$7.25  ").unwrap_err();
    assert_eq!(y, LineItemBuilderError::MissingAccount);
    let z = LineItem::parse("Assets:Cash   $7.25").unwrap();
    assert_eq!(z.account, "Assets:Cash");
    assert_eq!(z.value, 725);
}

#[test]
fn format_writes_two_decimals() {
    assert_eq!(item("Assets:Cash", true, -1230).to_text(), "Assets:Cash  \t$-12.30");
    assert_eq!(item("Budget:Food", false, 5).to_text(), "[Budget:Food]  \t$0.05");
    assert_eq!(item("A", true, 0).to_text(), "A  \t$0.00");
    assert_eq!(item("A", true, -5).to_text(), "A  \t$-0.05");
}

#[test]
fn format_then_parse_round_trips() {
    for x in [
        item("Assets:Checking", true, 10000),
        item("Budget:Food", false, -2550),
        item(" padded ", false, 1),
        item("A", true, i64::MIN),
        item("B", true, i64::MAX),
    ] {
        let y = LineItem::parse(&x.to_text()).unwrap();
        assert_eq!(y.account, x.account);
        assert_eq!(y.value, x.value);
        assert_eq!(y.is_real, x.is_real);
        assert!(y == x);
    }
}

#[test]
fn builder_reports_first_missing_field() {
    assert_eq!(
        LineItemBuilder::new().value(1).is_real(true).try_build().unwrap_err(),
        LineItemBuilderError::MissingAccount
    );
    assert_eq!(
        LineItemBuilder::new().account("A").is_real(true).try_build().unwrap_err(),
        LineItemBuilderError::MissingValue
    );
    assert_eq!(
        LineItemBuilder::new().account("A").value(1).try_build().unwrap_err(),
        LineItemBuilderError::MissingIsReal
    );
}

#[test]
fn ordering_puts_real_first_then_accounts() {
    let a = item("Zeta", true, 1);
    let b = item("Alpha", false, 1);
    let c = item("Alpha", true, 5);
    let d = item("Alpha", true, -7);
    assert_eq!(a.compare(&b), Ordering::Less);
    assert_eq!(b.compare(&a), Ordering::Greater);
    assert_eq!(c.compare(&a), Ordering::Less);
    assert_eq!(c.compare(&d), Ordering::Equal);
    assert_eq!(a.partial_cmp(&b), Some(Ordering::Less));
    assert!(c != d);
    assert_eq!(item("Ab", true, 0).compare(&item("Abc", true, 0)), Ordering::Less);
}
