use ledger_tx::line_item::{LineItem, LineItemBuilder};
use ledger_tx::merge::{merge_line_items, sort_items};

fn item(account: &str, is_real: bool, value: i64) -> LineItem {
    LineItemBuilder::new()
        .account(account)
        .value(value)
        .is_real(is_real)
        .try_build()
        .unwrap()
}

fn fields(v: &[LineItem]) -> Vec<(String, bool, i64)> {
    v.iter().map(|x| (x.account.clone(), x.is_real, x.value)).collect()
}

#[test]
fn merge_override_replaces_default() {
    let d = vec![item("A", true, 10), item("B", true, -10)];
    let o = vec![item("A", true, 20)];
    let r = merge_line_items(d, o);
    assert_eq!(
        fields(&r),
        vec![("A".to_string(), true, 20), ("B".to_string(), true, -10)]
    );
}

#[test]
fn merge_passes_through_and_sorts() {
    let d = vec![item("V", false, 3), item("C", true, 1), item("A", true, 2)];
    let o = vec![item("B", true, 9), item("V", false, 4), item("W", false, 5)];
    let r = merge_line_items(d, o);
    assert_eq!(
        fields(&r),
        vec![
            ("A".to_string(), true, 2),
            ("B".to_string(), true, 9),
            ("C".to_string(), true, 1),
            ("V".to_string(), false, 4),
            ("W".to_string(), false, 5),
        ]
    );
}

#[test]
fn merge_keeps_reality_apart() {
    let d = vec![item("A", true, 1)];
    let o = vec![item("A", false, 2)];
    let r = merge_line_items(d, o);
    assert_eq!(
        fields(&r),
        vec![("A".to_string(), true, 1), ("A".to_string(), false, 2)]
    );
}

#[test]
fn merge_of_empty_sets() {
    assert!(merge_line_items(vec![], vec![]).is_empty());
    let r = merge_line_items(vec![], vec![item("X", true, 1)]);
    assert_eq!(fields(&r), vec![("X".to_string(), true, 1)]);
}

#[test]
fn sort_orders_items() {
    let r = sort_items(vec![item("b", false, 1), item("b", true, 2), item("a", true, 3)]);
    assert_eq!(
        fields(&r),
        vec![
            ("a".to_string(), true, 3),
            ("b".to_string(), true, 2),
            ("b".to_string(), false, 1),
        ]
    );
}

#[test]
fn merge_with_repeated_default_key_keeps_later_default() {
    let d = vec![item("A", true, 1), item("A", true, 1)];
    let o = vec![item("A", true, 9)];
    let r = merge_line_items(d, o);
    assert_eq!(
        fields(&r),
        vec![("A".to_string(), true, 9), ("A".to_string(), true, 1)]
    );
}
