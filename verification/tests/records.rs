use cephalopod::number::{parse_amount, parse_unsigned, PLACES, SCALE};
use cephalopod::parse::{
    args, columns, input, parse_type, record, usage, Cause, Columns, ParseError, Records, Tx, Type,
};

fn words(words: &[&str]) -> Vec<String> {
    words.iter().map(|word| word.to_string()).collect()
}

fn failed(cause: Cause) -> Result<Tx, ParseError> {
    Err(ParseError { cause })
}

fn tx(typ: Type, client: u16, id: u32, amount: Option<u64>) -> Result<Tx, ParseError> {
    Ok(Tx { typ, client, id, amount })
}

#[test]
fn args_takes_the_one_argument() {
    assert_eq!(args(&words(&["prog", "input.csv"])), Ok("input.csv".to_string()));
}

#[test]
fn args_rejects_any_other_count() {
    let error = ParseError { cause: Cause::ArgumentCount };
    assert_eq!(args(&words(&[])), Err(error));
    assert_eq!(args(&words(&["prog"])), Err(error));
    assert_eq!(args(&words(&["prog", "a", "b"])), Err(error));
    assert_eq!(error.message(), "incorrect number of arguments");
}

#[test]
fn usage_says_what_is_wrong() {
    assert_eq!(usage(&words(&["prog"])), "Missing path!\nUSAGE:\n\tprog [path]\n");
    assert_eq!(usage(&words(&["prog", "a", "b"])), "Too many arguments!\nUSAGE:\n\tprog [path]\n");
    assert_eq!(usage(&words(&[])), "Missing path!\nUSAGE:\n\t [path]\n");
}

#[test]
fn every_cause_has_its_message() {
    let messages = [
        (Cause::ArgumentCount, "incorrect number of arguments"),
        (Cause::Unreadable, "unreadable record"),
        (Cause::MissingField, "missing field"),
        (Cause::UnknownType, "unknown transaction type"),
        (Cause::BadClient, "invalid client id"),
        (Cause::BadTx, "invalid transaction id"),
        (Cause::BadAmount, "invalid amount"),
    ];
    for (cause, message) in messages {
        assert_eq!(ParseError { cause }.message(), message);
    }
}

#[test]
fn the_five_types_are_lowercase_words() {
    assert_eq!(parse_type(&"deposit".to_string()), Some(Type::Deposit));
    assert_eq!(parse_type(&"withdrawal".to_string()), Some(Type::Withdrawal));
    assert_eq!(parse_type(&"dispute".to_string()), Some(Type::Dispute));
    assert_eq!(parse_type(&"resolve".to_string()), Some(Type::Resolve));
    assert_eq!(parse_type(&"chargeback".to_string()), Some(Type::Chargeback));
    for other in ["", "Deposit", "DEPOSIT", "deposit ", "deposits", "withdraw", "transfer"] {
        assert_eq!(parse_type(&other.to_string()), None);
    }
}

#[test]
fn unsigned_numbers_are_digits_after_an_optional_plus() {
    assert_eq!(parse_unsigned("0", 65_535), Some(0));
    assert_eq!(parse_unsigned("7", 65_535), Some(7));
    assert_eq!(parse_unsigned("65535", 65_535), Some(65_535));
    assert_eq!(parse_unsigned("+42", 65_535), Some(42));
    assert_eq!(parse_unsigned("00042", 65_535), Some(42));
    assert_eq!(parse_unsigned("4294967295", 4_294_967_295), Some(4_294_967_295));
    assert_eq!(parse_unsigned("18446744073709551615", u64::MAX), Some(u64::MAX));
    let zeros = "0".repeat(100) + "9";
    assert_eq!(parse_unsigned(&zeros, 9), Some(9));
}

#[test]
fn unsigned_numbers_stay_below_their_limit() {
    assert_eq!(parse_unsigned("65536", 65_535), None);
    assert_eq!(parse_unsigned("4294967296", 4_294_967_295), None);
    assert_eq!(parse_unsigned("18446744073709551616", u64::MAX), None);
    assert_eq!(parse_unsigned("99999999999999999999999999999999999999999999", u64::MAX), None);
    assert_eq!(parse_unsigned("10", 9), None);
}

#[test]
fn unsigned_numbers_hold_nothing_else() {
    for text in ["", "+", "-1", "++1", "1+", " 1", "1 ", "1.0", "1e3", "0x10", "1_000", "one", "١", "1é"] {
        assert_eq!(parse_unsigned(text, u64::MAX), None, "{:?}", text);
    }
}

#[test]
fn amounts_are_counted_in_ten_thousandths() {
    assert_eq!(SCALE, 10_000);
    assert_eq!(PLACES, 4);
    assert_eq!(parse_amount("1"), Some(10_000));
    assert_eq!(parse_amount("1.5"), Some(15_000));
    assert_eq!(parse_amount("2.0"), Some(20_000));
    assert_eq!(parse_amount("0"), Some(0));
    assert_eq!(parse_amount("0.0001"), Some(1));
    assert_eq!(parse_amount("0.001"), Some(10));
    assert_eq!(parse_amount("0.01"), Some(100));
    assert_eq!(parse_amount("0.1"), Some(1_000));
    assert_eq!(parse_amount("1234.5678"), Some(12_345_678));
    assert_eq!(parse_amount("+3.25"), Some(32_500));
    assert_eq!(parse_amount("007.50"), Some(75_000));
    assert_eq!(parse_amount("5."), Some(50_000));
    assert_eq!(parse_amount(".5"), Some(5_000));
    assert_eq!(parse_amount("0.0000"), Some(0));
}

#[test]
fn amounts_fill_a_u64_and_no_more() {
    assert_eq!(parse_amount("1844674407370955.1615"), Some(u64::MAX));
    assert_eq!(parse_amount("1844674407370955.1616"), None);
    assert_eq!(parse_amount("1844674407370955"), Some(18_446_744_073_709_550_000));
    assert_eq!(parse_amount("1844674407370956"), None);
    assert_eq!(parse_amount("18446744073709551616"), None);
    assert_eq!(parse_amount("99999999999999999999999999999999999.1"), None);
}

#[test]
fn amounts_are_never_rounded() {
    assert_eq!(parse_amount("1.00001"), None);
    assert_eq!(parse_amount("1.00000"), None);
    assert_eq!(parse_amount("0.12345"), None);
}

#[test]
fn amounts_hold_nothing_else() {
    for text in ["", ".", "+", "+.", "-1", "-1.5", "1.5.0", "1,5", "1e3", "1.5e0", " 1.5", "1.5 ", "abc", "1.a", "a.1", "inf", "NaN", "1.٥", "١.5"] {
        assert_eq!(parse_amount(text), None, "{:?}", text);
    }
}

#[test]
fn columns_are_found_by_name() {
    assert_eq!(
        columns(&words(&["type", "client", "tx", "amount"])),
        Some(Columns { typ: 0, client: 1, id: 2, amount: 3 })
    );
    assert_eq!(
        columns(&words(&["amount", "note", "tx", "client", "", "type"])),
        Some(Columns { typ: 5, client: 3, id: 2, amount: 0 })
    );
}

#[test]
fn columns_must_each_be_named_once() {
    assert_eq!(columns(&words(&[])), None);
    assert_eq!(columns(&words(&["type", "client", "tx"])), None);
    assert_eq!(columns(&words(&["type", "client", "id", "amount"])), None);
    assert_eq!(columns(&words(&["Type", "client", "tx", "amount"])), None);
    assert_eq!(columns(&words(&["type", "client", "tx", "amount", "tx"])), None);
    assert_eq!(columns(&words(&["type", "type", "client", "tx", "amount"])), None);
}

#[test]
fn record_reads_the_four_fields() {
    let at = Some(Columns { typ: 0, client: 1, id: 2, amount: 3 });
    assert_eq!(record(at, &words(&["deposit", "1", "2", "3.5"])), tx(Type::Deposit, 1, 2, Some(35_000)));
    assert_eq!(record(at, &words(&["withdrawal", "65535", "4294967295", "0.0001"])), tx(Type::Withdrawal, 65_535, 4_294_967_295, Some(1)));
    assert_eq!(record(at, &words(&["dispute", "1", "2", ""])), tx(Type::Dispute, 1, 2, None));
    assert_eq!(record(at, &words(&["resolve", "1", "2", "", "more"])), tx(Type::Resolve, 1, 2, None));
    assert_eq!(record(at, &words(&["chargeback", "1", "2", "9"])), tx(Type::Chargeback, 1, 2, Some(90_000)));
    assert_eq!(record(at, &words(&["deposit", "1", "2", ""])), tx(Type::Deposit, 1, 2, None));
    let at = Some(Columns { typ: 3, client: 0, id: 0, amount: 1 });
    assert_eq!(record(at, &words(&["8", "2", "-", "deposit"])), tx(Type::Deposit, 8, 8, Some(20_000)));
}

#[test]
fn record_says_why_it_fails() {
    let at = Some(Columns { typ: 0, client: 1, id: 2, amount: 3 });
    assert_eq!(record(None, &words(&["deposit", "1", "2", "3.5"])), failed(Cause::MissingField));
    assert_eq!(record(at, &words(&["deposit", "1", "2"])), failed(Cause::MissingField));
    assert_eq!(record(at, &words(&[])), failed(Cause::MissingField));
    assert_eq!(record(at, &words(&["transfer", "1", "2", "3.5"])), failed(Cause::UnknownType));
    assert_eq!(record(at, &words(&["deposit", "65536", "2", "3.5"])), failed(Cause::BadClient));
    assert_eq!(record(at, &words(&["deposit", "", "2", "3.5"])), failed(Cause::BadClient));
    assert_eq!(record(at, &words(&["deposit", "1", "4294967296", "3.5"])), failed(Cause::BadTx));
    assert_eq!(record(at, &words(&["deposit", "1", "-2", "3.5"])), failed(Cause::BadTx));
    assert_eq!(record(at, &words(&["deposit", "1", "2", "3.55555"])), failed(Cause::BadAmount));
    assert_eq!(record(at, &words(&["dispute", "1", "2", "x"])), failed(Cause::BadAmount));
}

#[test]
fn record_reports_the_first_fault() {
    let at = Some(Columns { typ: 0, client: 1, id: 2, amount: 3 });
    assert_eq!(record(at, &words(&["x", "x", "x", "x"])), failed(Cause::UnknownType));
    assert_eq!(record(at, &words(&["deposit", "x", "x", "x"])), failed(Cause::BadClient));
    assert_eq!(record(at, &words(&["deposit", "1", "x", "x"])), failed(Cause::BadTx));
    assert_eq!(record(at, &words(&["x", "x", "x"])), failed(Cause::MissingField));
}

#[test]
fn input_reads_rows_under_a_header() {
    let data = b"type, client, tx, amount\n\
        deposit, 1, 1, 1.0\n\
        deposit, 2, 2, 2.0\n\
        withdrawal, 1, 3, 0.5\n\
        dispute, 2, 2,\n\
        chargeback, 2, 2,\n";
    assert_eq!(
        input(data),
        vec![
            tx(Type::Deposit, 1, 1, Some(10_000)),
            tx(Type::Deposit, 2, 2, Some(20_000)),
            tx(Type::Withdrawal, 1, 3, Some(5_000)),
            tx(Type::Dispute, 2, 2, None),
            tx(Type::Chargeback, 2, 2, None),
        ]
    );
}

#[test]
fn input_of_nothing_is_nothing() {
    assert_eq!(input(b""), vec![]);
    assert_eq!(input(b"\n\n"), vec![]);
    assert_eq!(input(b"type,client,tx,amount"), vec![]);
    assert_eq!(input(b"type,client,tx,amount\n"), vec![]);
    assert_eq!(input(b"no,such,columns\n"), vec![]);
}

#[test]
fn input_trims_whitespace_around_fields() {
    let data = b"  type ,client\t,  tx,amount  \n \t deposit\t,   7 ,8   ,  1.25\t\n";
    assert_eq!(input(data), vec![tx(Type::Deposit, 7, 8, Some(12_500))]);
}

#[test]
fn input_takes_quotes_and_line_endings_as_csv_does() {
    let data = b"\"type\",\"client\",tx,amount\r\n\"deposit\",\"1\",2,\" 3.5 \"\r\n\r\nresolve,1,2,\"\"\r\n";
    assert_eq!(
        input(data),
        vec![tx(Type::Deposit, 1, 2, Some(35_000)), tx(Type::Resolve, 1, 2, None)]
    );
}

#[test]
fn input_finds_columns_by_name() {
    let data = b"amount,note,tx,client,type\n1.5,first,7,3,deposit\n,,7,3,dispute\n";
    assert_eq!(
        input(data),
        vec![tx(Type::Deposit, 3, 7, Some(15_000)), tx(Type::Dispute, 3, 7, None)]
    );
}

#[test]
fn input_gives_a_verdict_for_every_row() {
    let data = b"type,client,tx,amount\n\
        deposit,1,1,1.0\n\
        dispute,1,1\n\
        transfer,1,2,1.0\n\
        deposit,one,3,1.0\n\
        deposit,1,three,1.0\n\
        deposit,1,4,1.0.0\n\
        deposit,1,\xff,1.0\n\
        deposit,1,5,1.0,extra\n\
        withdrawal,1,6,0.25\n";
    assert_eq!(
        input(data),
        vec![
            tx(Type::Deposit, 1, 1, Some(10_000)),
            failed(Cause::Unreadable),
            failed(Cause::UnknownType),
            failed(Cause::BadClient),
            failed(Cause::BadTx),
            failed(Cause::BadAmount),
            failed(Cause::Unreadable),
            failed(Cause::Unreadable),
            tx(Type::Withdrawal, 1, 6, Some(2_500)),
        ]
    );
}

#[test]
fn input_without_the_four_columns_has_no_records() {
    let data = b"type,client,amount\ndeposit,1,1.0\ndeposit,2,1.0\n";
    assert_eq!(input(data), vec![failed(Cause::MissingField), failed(Cause::MissingField)]);
    let data = b"type,client,tx,tx,amount\ndeposit,1,1,1,1.0\n";
    assert_eq!(input(data), vec![failed(Cause::MissingField)]);
}

#[test]
fn input_under_an_unreadable_header_goes_by_position() {
    let data = b"\xff,b,c,d\ndeposit,1,2,3.5\nwithdrawal,1,3,x\n";
    assert_eq!(
        input(data),
        vec![tx(Type::Deposit, 1, 2, Some(35_000)), failed(Cause::BadAmount)]
    );
}

#[test]
fn records_come_one_at_a_time() {
    let data = b"type,client,tx,amount\ndeposit,1,1,1.0\nbad\nresolve,1,1,\n";
    let mut records = Records::new(data);
    assert_eq!(records.next(), Some(tx(Type::Deposit, 1, 1, Some(10_000))));
    assert_eq!(records.next(), Some(failed(Cause::Unreadable)));
    assert_eq!(records.next(), Some(tx(Type::Resolve, 1, 1, None)));
    assert_eq!(records.next(), None);
    assert_eq!(records.next(), None);
}
