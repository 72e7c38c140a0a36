use ledger_tx::input::{balance_from_report, parse_lines};
use ledger_tx::line_item::LineItemBuilderError;
use ledger_tx::placeholder::{names_from_matches, placeholder_accounts, substitute_balances};

#[test]
fn lines_are_parsed_and_blank_ones_skipped() {
    let v = parse_lines("Assets  $1.00\r\n\n   \n[Budget]  $-2.5\n").unwrap();
    assert_eq!(v.len(), 2);
    assert_eq!(v[0].account, "Assets");
    assert_eq!(v[0].value, 100);
    assert_eq!(v[1].account, "Budget");
    assert_eq!(v[1].value, -250);
    assert!(!v[1].is_real);
    assert!(parse_lines("").unwrap().is_empty());
}

#[test]
fn first_bad_line_stops_parsing() {
    assert_eq!(
        parse_lines("A  $1\nBad\n[C  $2").unwrap_err(),
        LineItemBuilderError::MissingValue
    );
}

#[test]
fn balance_is_read_from_last_full_line() {
    let out = b"             $10.00  Assets\n--------------------\n          $-1,234.56\n".to_vec();
    assert_eq!(balance_from_report(&out), Some(-123456));
    assert_eq!(balance_from_report(&b"no newline".to_vec()), None);
    assert_eq!(balance_from_report(&b"0\n".to_vec()), Some(0));
    assert_eq!(balance_from_report(&b"abc\n".to_vec()), None);
}

#[test]
fn placeholders_are_found() {
    let v = placeholder_accounts("x <<Assets:Cash>> y\nz <<Budget>>\n");
    assert_eq!(v, vec!["Assets:Cash".to_string(), "Budget".to_string()]);
    let two = placeholder_accounts("<<a>> <<b>>");
    assert_eq!(two, vec!["a".to_string(), "b".to_string()]);
    assert!(placeholder_accounts("none here").is_empty());
    assert!(placeholder_accounts("<<split\nline>>").is_empty());
}

#[test]
fn names_are_cut_from_matches() {
    let v = names_from_matches(&vec!["<<ab>>".to_string(), "<<>".to_string(), "<<>>".to_string()]);
    assert_eq!(v, vec!["ab".to_string(), "".to_string()]);
}

#[test]
fn balances_are_substituted() {
    let s = substitute_balances(
        "{{ <<A>> / 100 }} <<B>> <<A>>",
        &vec!["A".to_string(), "B".to_string()],
        &vec![-2550, 7],
    );
    assert_eq!(s, "{{ -2550 / 100 }} 7 -2550");
}
