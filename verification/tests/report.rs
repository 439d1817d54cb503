use cephalopod::engine::{process_lenient, Account};
use cephalopod::number::parse_amount;
use cephalopod::parse::input;
use cephalopod::report::{entry, format_units, heading};

#[test]
fn heading_names_the_five_fields() {
    assert_eq!(heading(), "client, available, held, total, locked");
}

#[test]
fn units_are_written_in_whole_units() {
    assert_eq!(format_units(0), "0");
    assert_eq!(format_units(10_000), "1");
    assert_eq!(format_units(15_000), "1.5");
    assert_eq!(format_units(35_000), "3.5");
    assert_eq!(format_units(1), "0.0001");
    assert_eq!(format_units(10), "0.001");
    assert_eq!(format_units(100), "0.01");
    assert_eq!(format_units(1_000), "0.1");
    assert_eq!(format_units(1_010), "0.101");
    assert_eq!(format_units(9_999), "0.9999");
    assert_eq!(format_units(12_345_678), "1234.5678");
    assert_eq!(format_units(1_000_000_000), "100000");
    assert_eq!(format_units(100_500), "10.05");
}

#[test]
fn units_below_zero_carry_a_minus_sign() {
    assert_eq!(format_units(-1), "-0.0001");
    assert_eq!(format_units(-20_000), "-2");
    assert_eq!(format_units(-12_345_600), "-1234.56");
}

#[test]
fn units_at_the_ends_of_the_range() {
    assert_eq!(format_units(i128::MAX), "17014118346046923173168730371588410.5727");
    assert_eq!(format_units(i128::MIN), "-17014118346046923173168730371588410.5728");
    assert_eq!(format_units(u64::MAX as i128), "1844674407370955.1615");
}

#[test]
fn what_is_written_reads_back() {
    for units in [0u64, 1, 9, 10, 99, 100, 1_000, 9_999, 10_000, 10_001, 123_456_789, u64::MAX - 1, u64::MAX] {
        assert_eq!(parse_amount(&format_units(units as i128)), Some(units));
    }
}

#[test]
fn entry_lists_client_balances_total_and_flag() {
    let mut acct = Account::new(2);
    assert_eq!(entry(&acct), "2, 0, 0, 0, false");
    acct.deposit(1, 15_000);
    acct.deposit(2, 20_000);
    acct.dispute(1);
    assert_eq!(entry(&acct), "2, 2, 1.5, 3.5, false");
    acct.chargeback(1);
    assert_eq!(entry(&acct), "2, 2, 0, 2, true");
    acct.dispute(2);
    acct.dispute(2);
    assert_eq!(entry(&acct), "2, -2, 4, 2, true");
    let acct = Account::new(65_535);
    assert_eq!(entry(&acct), "65535, 0, 0, 0, false");
}

#[test]
fn from_input_to_report() {
    let data = b"type, client, tx, amount\n\
        deposit, 1, 1, 2.0\n\
        deposit, 1, 2, 1.0\n\
        deposit, 2, 3, 0.75\n\
        oops\n\
        dispute, 1, 2,\n\
        deposit, 3, 9,\n\
        chargeback, 1, 2,\n\
        deposit, 1, 4, 1.5\n\
        withdrawal, 1, 5, 3.0\n\
        withdrawal, 2, 6, 0.5\n";
    let verdicts = input(data);
    assert_eq!(verdicts.iter().filter(|verdict| verdict.is_err()).count(), 1);
    let txs = verdicts.into_iter().filter_map(|verdict| verdict.ok()).collect();
    let (ledger, skipped) = process_lenient(txs);
    assert_eq!(skipped.len(), 1);
    assert_eq!(skipped[0].index, 4);
    let mut lines: Vec<String> = ledger.values().map(entry).collect();
    lines.sort();
    assert_eq!(lines, vec!["1, 3.5, 0, 3.5, true", "2, 0.25, 0, 0.25, false", "3, 0, 0, 0, false"]);
}
