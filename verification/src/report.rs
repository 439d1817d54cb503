//! The final report: one line of text for each account.

use crate::engine::{Account, AccountView};
use crate::number::{
    amount, digit, digits, is_digit, lead, lemma_pow10_grows, number, pow10, unsigned_part, PLACES,
    SCALE,
};
use vstd::prelude::*;
use vstd::string::*;

verus! {

/// The digit that writes `value`, for a value below ten.
pub open spec fn digit_char(value: nat) -> char {
    ('0' as u8 + value) as char
}

/// `n` in base ten, without leading zeros; zero is written `0`.
pub open spec fn decimal(n: nat) -> Seq<char>
    decreases n,
{
    if n < 10 {
        seq![digit_char(n)]
    } else {
        decimal(n / 10).push(digit_char(n % 10))
    }
}

/// The digits after the point for `part` units out of ten to the power
/// `places`: as many digits as it takes, at most `places`, none for zero.
pub open spec fn fraction(part: nat, places: nat) -> Seq<char>
    decreases places,
{
    if part == 0 || places == 0 {
        Seq::empty()
    } else {
        let high = pow10((places - 1) as nat);
        seq![digit_char(part / high)] + fraction(part % high, (places - 1) as nat)
    }
}

/// A number of units, written in whole units without a sign: the whole
/// part, and the fraction after a point if there is one.
pub open spec fn magnitude_text(units: nat) -> Seq<char> {
    let whole = decimal(units / (SCALE as nat));
    let part = units % (SCALE as nat);
    if part == 0 {
        whole
    } else {
        whole + seq!['.'] + fraction(part, PLACES as nat)
    }
}

/// A balance in units, written in whole units, with a minus sign if it is
/// below zero.
pub open spec fn units_text(units: int) -> Seq<char> {
    if units < 0 {
        seq!['-'] + magnitude_text((-units) as nat)
    } else {
        magnitude_text(units as nat)
    }
}

/// How a flag is written.
pub open spec fn flag_text(flag: bool) -> Seq<char> {
    if flag {
        "true"@
    } else {
        "false"@
    }
}

/// The entry of the report for `account`: client id, available, held and
/// total funds, and the locked flag.
pub open spec fn entry_text(account: AccountView) -> Seq<char> {
    decimal(account.client as nat) + ", "@ + units_text(account.available) + ", "@ + units_text(
        account.held,
    ) + ", "@ + units_text(account.total()) + ", "@ + flag_text(account.locked)
}

/// The text of one digit.
fn digit_str(value: u8) -> (text: &'static str)
    requires
        value < 10,
    ensures
        text@ == seq![digit_char(value as nat)],
{
    proof {
        reveal_strlit("0");
        reveal_strlit("1");
        reveal_strlit("2");
        reveal_strlit("3");
        reveal_strlit("4");
        reveal_strlit("5");
        reveal_strlit("6");
        reveal_strlit("7");
        reveal_strlit("8");
        reveal_strlit("9");
    }
    let text = if value == 0 {
        "0"
    } else if value == 1 {
        "1"
    } else if value == 2 {
        "2"
    } else if value == 3 {
        "3"
    } else if value == 4 {
        "4"
    } else if value == 5 {
        "5"
    } else if value == 6 {
        "6"
    } else if value == 7 {
        "7"
    } else if value == 8 {
        "8"
    } else {
        "9"
    };
    text
}

/// Appends `n` in base ten.
fn write_decimal(text: &mut String, n: u128)
    ensures
        final(text)@ == old(text)@ + decimal(n as nat),
    decreases n,
{
    if n >= 10 {
        write_decimal(text, n / 10);
    }
    text.append(digit_str((n % 10) as u8));
}

/// Appends the digits after the point for `part` units.
fn write_fraction(text: &mut String, part: u64)
    requires
        part < SCALE,
    ensures
        final(text)@ == old(text)@ + fraction(part as nat, PLACES as nat),
{
    proof {
        reveal_with_fuel(pow10, 5);
    }
    let mut rest = part;
    let mut high: u64 = 1_000;
    let mut places: usize = PLACES;
    while rest != 0 && places > 0
        invariant
            (places == 4 && high == 1_000) || (places == 3 && high == 100) || (places == 2
                && high == 10) || (places == 1 && high == 1) || (places == 0 && high == 0),
            rest < pow10(places as nat),
            text@ + fraction(rest as nat, places as nat) == old(text)@ + fraction(
                part as nat,
                PLACES as nat,
            ),
        decreases places,
    {
        let ghost before = text@;
        proof {
            reveal_with_fuel(pow10, 5);
            reveal_with_fuel(fraction, 2);
        }
        text.append(digit_str((rest / high) as u8));
        assert(before + fraction(rest as nat, places as nat) =~= text@ + fraction(
            (rest % high) as nat,
            (places - 1) as nat,
        ));
        rest = rest % high;
        high = high / 10;
        places = places - 1;
    }
}

/// Writes a balance in whole units: `15000` units are `1.5`, `-20000` are
/// `-2`, none are `0`.
pub fn format_units(units: i128) -> (text: String)
    ensures
        text@ == units_text(units as int),
{
    proof {
        reveal_strlit("-");
        reveal_strlit(".");
    }
    let mut text = String::new();
    let magnitude: u128 = if units < 0 {
        text.append("-");
        (-(units + 1)) as u128 + 1
    } else {
        units as u128
    };
    write_decimal(&mut text, magnitude / SCALE as u128);
    let part = (magnitude % SCALE as u128) as u64;
    if part != 0 {
        text.append(".");
        write_fraction(&mut text, part);
    }
    text
}

/// The heading of the report.
pub fn heading() -> (text: String)
    ensures
        text@ == "client, available, held, total, locked"@,
{
    "client, available, held, total, locked".to_owned()
}

/// Writes the entry of the report for `account`.
pub fn entry(account: &Account) -> (text: String)
    requires
        i128::MIN <= account@.total() <= i128::MAX,
    ensures
        text@ == entry_text(account@),
{
    let mut text = String::new();
    write_decimal(&mut text, account.client as u128);
    text.append(", ");
    text.append(format_units(account.available).as_str());
    text.append(", ");
    text.append(format_units(account.held).as_str());
    text.append(", ");
    text.append(format_units(account.total()).as_str());
    text.append(", ");
    text.append(if account.locked { "true" } else { "false" });
    text
}

/// A digit's character writes the digit.
pub proof fn lemma_digit_reads_back(value: nat)
    requires
        value < 10,
    ensures
        is_digit(digit_char(value)),
        digit(digit_char(value)) == value,
{
}

/// The digits of a number write that number.
pub proof fn lemma_decimal_reads_back(n: nat)
    ensures
        decimal(n).len() > 0,
        digits(decimal(n)),
        number(decimal(n)) == n,
    decreases n,
{
    lemma_digit_reads_back(n % 10);
    if n >= 10 {
        lemma_decimal_reads_back(n / 10);
        assert(decimal(n).drop_last() =~= decimal(n / 10));
    } else {
        assert(number(decimal(n).drop_last()) == 0);
    }
}

/// Ten to a sum of powers is the product of the two powers of ten.
pub proof fn lemma_pow10_adds(m: nat, n: nat)
    ensures
        pow10(m + n) == pow10(m) * pow10(n),
    decreases m,
{
    if m > 0 {
        lemma_pow10_adds((m - 1) as nat, n);
        let less = pow10((m - 1) as nat);
        assert(10 * (less * pow10(n)) == (10 * less) * pow10(n)) by (nonlinear_arith);
    } else {
        assert(1 * pow10(n) == pow10(n));
    }
}

/// A number with one more digit in front.
pub proof fn lemma_number_with_first(first: char, rest: Seq<char>)
    ensures
        number(seq![first] + rest) == digit(first) * pow10(rest.len()) + number(rest),
    decreases rest.len(),
{
    let all = seq![first] + rest;
    if rest.len() == 0 {
        assert(number(all.drop_last()) == 0);
        assert(digit(first) * 1 == digit(first));
    } else {
        let short = rest.drop_last();
        lemma_number_with_first(first, short);
        assert(all.drop_last() =~= seq![first] + short);
        let high = pow10(short.len());
        assert((digit(first) * high + number(short)) * 10 == digit(first) * (10 * high) + number(
            short,
        ) * 10) by (nonlinear_arith);
    }
}

/// The digits after the point write the part they stand for: filled up
/// with zeros to `places` digits, they are the number `part`.
pub proof fn lemma_fraction_reads_back(part: nat, places: nat)
    requires
        part < pow10(places),
    ensures
        digits(fraction(part, places)),
        fraction(part, places).len() <= places,
        part > 0 ==> fraction(part, places).len() > 0,
        number(fraction(part, places)) * pow10((places - fraction(part, places).len()) as nat)
            == part,
    decreases places,
{
    if part != 0 && places != 0 {
        let high = pow10((places - 1) as nat);
        let first = digit_char(part / high);
        let rest = fraction(part % high, (places - 1) as nat);
        let all = fraction(part, places);
        let fill = pow10((places - 1 - rest.len()) as nat);
        lemma_pow10_grows(0, (places - 1) as nat);
        assert(part / high < 10 && part % high < high && part == high * (part / high) + part
            % high) by (nonlinear_arith)
            requires
                part < 10 * high,
                high > 0,
        ;
        lemma_digit_reads_back(part / high);
        lemma_fraction_reads_back(part % high, (places - 1) as nat);
        assert forall|i: int| 0 <= i < all.len() implies is_digit(#[trigger] all[i]) by {}
        lemma_number_with_first(first, rest);
        lemma_pow10_adds(rest.len(), (places - 1 - rest.len()) as nat);
        assert(number(all) * fill == part) by (nonlinear_arith)
            requires
                number(all) == (part / high) * pow10(rest.len()) + number(rest),
                high == pow10(rest.len()) * fill,
                number(rest) * fill == part % high,
                part == high * (part / high) + part % high,
        ;
    } else {
        assert(number(fraction(part, places)) == 0);
    }
}

/// The leading digits of a text that starts with the digits `front` and
/// goes on with something else are `front`.
pub proof fn lemma_lead_stops(front: Seq<char>, back: Seq<char>)
    requires
        digits(front),
        back.len() > 0 ==> !is_digit(back[0]),
    ensures
        lead(front + back) == front.len(),
    decreases front.len(),
{
    let all = front + back;
    if front.len() > 0 {
        assert(all.skip(1) =~= front.skip(1) + back);
        lemma_lead_stops(front.skip(1), back);
    }
}

/// What is written reads back: the text of a number of units that an amount
/// can hold is an amount of that many units.
pub proof fn lemma_written_amount_reads_back(units: u64)
    ensures
        amount(units_text(units as int)) == Some(units),
{
    let count = units as nat / (SCALE as nat);
    let part = units as nat % (SCALE as nat);
    let whole = decimal(count);
    let text = units_text(units as int);
    reveal_with_fuel(pow10, 5);
    lemma_decimal_reads_back(count);
    if part == 0 {
        lemma_lead_stops(whole, Seq::empty());
        assert(text.take(whole.len() as int) =~= whole);
        assert(number(Seq::<char>::empty()) * pow10(PLACES as nat) == 0) by (nonlinear_arith)
            requires
                number(Seq::<char>::empty()) == 0,
        ;
    } else {
        let after = fraction(part, PLACES as nat);
        let back = seq!['.'] + after;
        lemma_fraction_reads_back(part, PLACES as nat);
        lemma_lead_stops(whole, back);
        assert(text =~= whole + back);
        assert(text.take(whole.len() as int) =~= whole);
        assert(text.skip(whole.len() as int + 1) =~= after);
    }
}

} // verus!
