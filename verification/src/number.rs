//! Decimal numbers in text: how ids and amounts are written.

use vstd::prelude::*;
use vstd::string::*;
use vstd::utf8::is_ascii_chars;

verus! {

/// Number of amount units in one whole unit of currency. Amounts and
/// balances are counted in ten-thousandths.
pub const SCALE: u64 = 10_000;

/// Number of digits that an amount may have after the point.
pub const PLACES: usize = 4;

/// Whether `c` is one of the ten decimal digits.
pub open spec fn is_digit(c: char) -> bool {
    '0' <= c && c <= '9'
}

/// The value of the digit `c`.
pub open spec fn digit(c: char) -> nat {
    (c as int - '0' as int) as nat
}

/// Whether `s` holds decimal digits only.
pub open spec fn digits(s: Seq<char>) -> bool {
    forall|i: int| 0 <= i < s.len() ==> is_digit(#[trigger] s[i])
}

/// The number that the digits `s` write in base ten; zero for no digits.
pub open spec fn number(s: Seq<char>) -> nat
    decreases s.len(),
{
    if s.len() == 0 {
        0
    } else {
        number(s.drop_last()) * 10 + digit(s.last())
    }
}

/// How many digits `s` starts with.
pub open spec fn lead(s: Seq<char>) -> nat
    decreases s.len(),
{
    if s.len() == 0 || !is_digit(s[0]) {
        0
    } else {
        1 + lead(s.skip(1))
    }
}

/// Ten to the power `n`.
pub open spec fn pow10(n: nat) -> nat
    decreases n,
{
    if n == 0 {
        1
    } else {
        10 * pow10((n - 1) as nat)
    }
}

/// `s` without the plus sign that it may start with.
pub open spec fn unsigned_part(s: Seq<char>) -> Seq<char> {
    if s.len() > 0 && s[0] == '+' {
        s.skip(1)
    } else {
        s
    }
}

/// The unsigned number that `s` writes, if it is one and no more than
/// `max`: an optional plus sign, then one or more digits and nothing else.
pub open spec fn unsigned(s: Seq<char>, max: u64) -> Option<u64> {
    let body = unsigned_part(s);
    if body.len() > 0 && digits(body) && number(body) <= max {
        Some(number(body) as u64)
    } else {
        None
    }
}

/// The amount that `s` writes, in units, if it is one: an optional plus
/// sign, digits, and optionally a point followed by at most `PLACES`
/// digits; at least one digit in all; and no more units than a `u64` holds.
pub open spec fn amount(s: Seq<char>) -> Option<u64> {
    let body = unsigned_part(s);
    let n = lead(body) as int;
    let whole = body.take(n);
    let fraction = if n < body.len() {
        body.skip(n + 1)
    } else {
        Seq::empty()
    };
    let units = number(whole) * SCALE + number(fraction) * pow10(
        (PLACES - fraction.len()) as nat,
    );
    if (n == body.len() || body[n] == '.') && digits(fraction) && fraction.len() <= PLACES
        && whole.len() + fraction.len() > 0 && units <= u64::MAX {
        Some(units as u64)
    } else {
        None
    }
}

/// `bytes` spells the ASCII text `text`, one byte for each character.
pub open spec fn same_text(bytes: Seq<u8>, text: Seq<char>) -> bool {
    &&& bytes.len() == text.len()
    &&& forall|i: int|
        0 <= i < text.len() ==> '\0' <= (#[trigger] text[i]) <= '\u{7f}' && bytes[i]
            == text[i] as u8
}

/// A number is at least the number written by any part of its digits taken
/// from the front.
pub proof fn lemma_number_grows(s: Seq<char>, k: int)
    requires
        0 <= k <= s.len(),
    ensures
        number(s.take(k)) <= number(s),
    decreases s.len(),
{
    if k == s.len() {
        assert(s.take(k) =~= s);
    } else {
        lemma_number_grows(s.drop_last(), k);
        assert(s.drop_last().take(k) =~= s.take(k));
    }
}

/// A number of `n` digits is less than ten to the power `n`.
pub proof fn lemma_number_bound(s: Seq<char>)
    requires
        digits(s),
    ensures
        number(s) < pow10(s.len()),
    decreases s.len(),
{
    if s.len() > 0 {
        lemma_number_bound(s.drop_last());
    }
}

/// Powers of ten grow with the exponent.
pub proof fn lemma_pow10_grows(m: nat, n: nat)
    requires
        m <= n,
    ensures
        pow10(m) <= pow10(n),
    decreases n,
{
    if m < n {
        lemma_pow10_grows(m, (n - 1) as nat);
    }
}

/// A text is all digits exactly if its leading digits are the whole of it.
pub proof fn lemma_lead_digits(s: Seq<char>)
    ensures
        lead(s) <= s.len(),
        lead(s) == s.len() <==> digits(s),
        lead(s) < s.len() ==> !is_digit(s[lead(s) as int]),
        digits(s.take(lead(s) as int)),
    decreases s.len(),
{
    if s.len() > 0 && is_digit(s[0]) {
        let rest = s.skip(1);
        lemma_lead_digits(rest);
        if digits(rest) {
            assert forall|i: int| 0 <= i < s.len() implies is_digit(#[trigger] s[i]) by {
                if i > 0 {
                    assert(is_digit(rest[i - 1]));
                }
            }
        }
        let n = lead(s) as int;
        assert forall|i: int| 0 <= i < n implies is_digit(#[trigger] s.take(n)[i]) by {
            if i > 0 {
                assert(is_digit(rest.take(n - 1)[i - 1]));
            }
        }
    }
}

/// The bytes of `field`, if it is plain ASCII.
fn ascii_bytes(field: &str) -> (bytes: Option<&[u8]>)
    ensures
        bytes is Some <==> is_ascii_chars(field@),
        bytes matches Some(found) ==> same_text(found@, field@),
{
    broadcast use vstd::string::is_ascii_spec_bytes;

    if field.is_ascii() {
        Some(field.as_bytes())
    } else {
        None
    }
}

/// Reads the digits that start at `from`. Returns where they end and the
/// number they write, or nothing if that number is above `max`.
fn scan(bytes: &[u8], Ghost(text): Ghost<Seq<char>>, from: usize, max: u64) -> (found: Option<
    (usize, u64),
>)
    requires
        same_text(bytes@, text),
        from <= bytes.len(),
    ensures
        match found {
            Some((end, value)) => {
                &&& end == from + lead(text.skip(from as int))
                &&& end <= bytes.len()
                &&& value == number(text.subrange(from as int, end as int))
                &&& value <= max
            },
            None => number(
                text.subrange(from as int, from + lead(text.skip(from as int))),
            ) > max,
        },
{
    let mut i: usize = from;
    let mut value: u64 = 0;
    proof {
        lemma_lead_digits(text.skip(from as int));
    }
    while i < bytes.len() && 48 <= bytes[i] && bytes[i] <= 57
        invariant
            from <= i <= bytes.len(),
            same_text(bytes@, text),
            from + lead(text.skip(from as int)) == i + lead(text.skip(i as int)),
            from + lead(text.skip(from as int)) <= bytes.len(),
            value == number(text.subrange(from as int, i as int)),
            value <= max,
        decreases bytes.len() - i,
    {
        let next: u128 = value as u128 * 10 + (bytes[i] - 48) as u128;
        proof {
            assert(text.skip(i as int).skip(1) =~= text.skip(i + 1));
            let upto = text.subrange(from as int, i + 1);
            assert(upto.drop_last() =~= text.subrange(from as int, i as int));
            let run = text.subrange(from as int, from + lead(text.skip(from as int)));
            assert(run.take(i + 1 - from) =~= upto);
            lemma_number_grows(run, i + 1 - from);
        }
        if next > max as u128 {
            return None;
        }
        value = next as u64;
        i = i + 1;
    }
    Some((i, value))
}

/// Where the digits of `bytes` start: after the plus sign, if there is one.
fn after_sign(bytes: &[u8], Ghost(text): Ghost<Seq<char>>) -> (start: usize)
    requires
        same_text(bytes@, text),
    ensures
        start <= bytes.len(),
        unsigned_part(text) == text.skip(start as int),
{
    if bytes.len() > 0 && bytes[0] == 43 {
        1
    } else {
        0
    }
}

/// Reads an unsigned number no greater than `max`: an optional plus sign,
/// then one or more decimal digits and nothing else.
pub fn parse_unsigned(field: &str, max: u64) -> (value: Option<u64>)
    ensures
        value == unsigned(field@, max),
{
    let ghost text = field@;
    let ghost body = unsigned_part(text);
    proof {
        lemma_lead_digits(body);
    }
    let bytes = match ascii_bytes(field) {
        Some(bytes) => bytes,
        None => {
            proof {
                let i = choose|i: int|
                    0 <= i < text.len() && !('\0' <= #[trigger] text[i] <= '\u{7f}');
                if body.len() < text.len() {
                    assert(body[i - 1] == text[i]);
                }
            }
            return None;
        },
    };
    let start = after_sign(bytes, Ghost(text));
    match scan(bytes, Ghost(text), start, max) {
        Some((end, value)) => {
            if end == bytes.len() && end > start {
                Some(value)
            } else {
                None
            }
        },
        None => None,
    }
}

/// Ten to the power `PLACES - places`: what one unit of the last of
/// `places` fraction digits is worth.
fn place_value(places: usize) -> (value: u64)
    requires
        places <= PLACES,
    ensures
        value == pow10((PLACES - places) as nat),
        value <= SCALE,
{
    reveal_with_fuel(pow10, 5);
    if places == 0 {
        10_000
    } else if places == 1 {
        1_000
    } else if places == 2 {
        100
    } else if places == 3 {
        10
    } else {
        1
    }
}

/// Reads an amount, in units: an optional plus sign, digits, and optionally
/// a point followed by at most `PLACES` digits, with at least one digit in
/// all. Nothing is rounded: a text with more fraction digits, or worth more
/// units than a `u64` holds, is no amount.
pub fn parse_amount(field: &str) -> (units: Option<u64>)
    ensures
        units == amount(field@),
{
    let ghost text = field@;
    let ghost body = unsigned_part(text);
    let ghost n = lead(body) as int;
    let ghost fraction = if n < body.len() {
        body.skip(n + 1)
    } else {
        Seq::empty()
    };
    proof {
        lemma_lead_digits(body);
        lemma_lead_digits(fraction);
    }
    let bytes = match ascii_bytes(field) {
        Some(bytes) => bytes,
        None => {
            proof {
                let i = choose|i: int|
                    0 <= i < text.len() && !('\0' <= #[trigger] text[i] <= '\u{7f}');
                let j = i - (text.len() - body.len());
                if j < n {
                    assert(body.take(n)[j] == body[j]);
                } else if j > n {
                    assert(fraction[j - n - 1] == body[j]);
                }
            }
            return None;
        },
    };
    let start = after_sign(bytes, Ghost(text));
    let (end, whole) = match scan(bytes, Ghost(text), start, u64::MAX) {
        Some(found) => found,
        None => {
            assert(body.take(n) =~= text.subrange(start as int, start + n));
            return None;
        },
    };
    assert(body.take(n) =~= text.subrange(start as int, end as int));
    let mut places: usize = 0;
    let mut part: u64 = 0;
    if end < bytes.len() {
        if bytes[end] != 46 {
            return None;
        }
        assert(fraction =~= text.skip(end + 1));
        match scan(bytes, Ghost(text), end + 1, 9_999) {
            Some((stop, value)) => {
                if stop != bytes.len() || stop - end - 1 > PLACES {
                    return None;
                }
                places = stop - end - 1;
                part = value;
            },
            None => {
                proof {
                    if digits(fraction) && fraction.len() <= PLACES {
                        lemma_number_bound(fraction);
                        lemma_pow10_grows(fraction.len(), PLACES as nat);
                        reveal_with_fuel(pow10, 5);
                    }
                }
                return None;
            },
        }
    }
    if end - start + places == 0 {
        return None;
    }
    let factor = place_value(places);
    assert(whole * SCALE + part * factor <= u128::MAX) by (nonlinear_arith)
        requires
            whole <= u64::MAX,
            part <= 9_999,
            factor <= 10_000,
            SCALE == 10_000,
    ;
    let total: u128 = whole as u128 * SCALE as u128 + part as u128 * factor as u128;
    if total > u64::MAX as u128 {
        return None;
    }
    Some(total as u64)
}

} // verus!
