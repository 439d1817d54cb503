//! Transaction records and the textual record format.

use crate::number::{amount, parse_amount, parse_unsigned, unsigned};
use crate::rows::{csv_rows, pending, read_row, reader_over, texts};
use vstd::prelude::*;
use vstd::string::*;

verus! {

/// Transaction type.
#[derive(Clone, Copy, Debug, PartialEq, Eq, Structural)]
pub enum Type {
    Deposit,
    Withdrawal,
    Dispute,
    Resolve,
    Chargeback,
}

/// Transaction data.
///
/// Only deposits and withdrawals carry a meaningful `amount`; the other
/// three types refer to an earlier transaction through `id` and ignore it.
#[derive(Clone, Copy, Debug, PartialEq, Eq)]
pub struct Tx {
    pub typ: Type,
    pub client: u16,
    pub id: u32,
    pub amount: Option<u64>,
}

/// Why an input was turned down.
#[derive(Clone, Copy, Debug, PartialEq, Eq, Structural)]
pub enum Cause {
    /// The command line does not hold exactly one argument.
    ArgumentCount,
    /// The record could not be split into fields.
    Unreadable,
    /// The header does not give each of the four fields a column of its
    /// own, or the record is too short to reach them.
    MissingField,
    /// The type is none of the five known tokens.
    UnknownType,
    /// The client id is no unsigned 16-bit number.
    BadClient,
    /// The transaction id is no unsigned 32-bit number.
    BadTx,
    /// The amount is no decimal number that an amount can hold.
    BadAmount,
}

impl Cause {
    /// The message that goes with the cause.
    pub open spec fn text(self) -> Seq<char> {
        match self {
            Cause::ArgumentCount => "incorrect number of arguments"@,
            Cause::Unreadable => "unreadable record"@,
            Cause::MissingField => "missing field"@,
            Cause::UnknownType => "unknown transaction type"@,
            Cause::BadClient => "invalid client id"@,
            Cause::BadTx => "invalid transaction id"@,
            Cause::BadAmount => "invalid amount"@,
        }
    }
}

/// Custom error type to pass error messages.
#[derive(Clone, Copy, Debug, PartialEq, Eq)]
pub struct ParseError {
    pub cause: Cause,
}

impl ParseError {
    /// The error's message.
    pub fn message(&self) -> (msg: String)
        ensures
            msg@ == self.cause.text(),
    {
        match self.cause {
            Cause::ArgumentCount => "incorrect number of arguments".to_owned(),
            Cause::Unreadable => "unreadable record".to_owned(),
            Cause::MissingField => "missing field".to_owned(),
            Cause::UnknownType => "unknown transaction type".to_owned(),
            Cause::BadClient => "invalid client id".to_owned(),
            Cause::BadTx => "invalid transaction id".to_owned(),
            Cause::BadAmount => "invalid amount".to_owned(),
        }
    }
}

/// Picks the input path out of the command line: the one argument after the
/// program's name. Any other number of arguments is an error.
pub fn args(argv: &Vec<String>) -> (result: Result<String, ParseError>)
    ensures
        match result {
            Ok(path) => argv.len() == 2 && path@ == argv[1]@,
            Err(error) => argv.len() != 2 && error.cause == Cause::ArgumentCount,
        },
{
    if argv.len() != 2 {
        return Err(ParseError { cause: Cause::ArgumentCount });
    }
    Ok(argv[1].clone())
}

/// The name under which the program was started: the first word of the
/// command line, or nothing if the command line is empty.
pub open spec fn program_name(argv: Seq<String>) -> Seq<char> {
    if argv.len() > 0 {
        argv[0]@
    } else {
        Seq::empty()
    }
}

/// The hint shown for a command line that [`args`] turns down: what is
/// wrong with it, and how the program is called.
pub open spec fn usage_text(argv: Seq<String>) -> Seq<char> {
    (if argv.len() > 2 {
        "Too many arguments!\n"@
    } else {
        "Missing path!\n"@
    }) + "USAGE:\n\t"@ + program_name(argv) + " [path]\n"@
}

/// Writes the usage hint for a command line that [`args`] turns down.
pub fn usage(argv: &Vec<String>) -> (text: String)
    ensures
        text@ == usage_text(argv@),
{
    let mut text = if argv.len() > 2 {
        "Too many arguments!\n".to_owned()
    } else {
        "Missing path!\n".to_owned()
    };
    text.append("USAGE:\n\t");
    if argv.len() > 0 {
        text.append(argv[0].as_str());
    }
    text.append(" [path]\n");
    text
}

/// The transaction type that `token` names: one of the five lowercase
/// words, and nothing else.
pub open spec fn type_of(token: Seq<char>) -> Option<Type> {
    if token == "deposit"@ {
        Some(Type::Deposit)
    } else if token == "withdrawal"@ {
        Some(Type::Withdrawal)
    } else if token == "dispute"@ {
        Some(Type::Dispute)
    } else if token == "resolve"@ {
        Some(Type::Resolve)
    } else if token == "chargeback"@ {
        Some(Type::Chargeback)
    } else {
        None
    }
}

/// Whether `left` and `right` hold the same text.
fn same(left: &String, right: &str) -> (equal: bool)
    ensures
        equal == (left@ == right@),
{
    let right = right.to_owned();
    *left == right
}

/// Reads a transaction type.
pub fn parse_type(field: &String) -> (typ: Option<Type>)
    ensures
        typ == type_of(field@),
{
    if same(field, "deposit") {
        Some(Type::Deposit)
    } else if same(field, "withdrawal") {
        Some(Type::Withdrawal)
    } else if same(field, "dispute") {
        Some(Type::Dispute)
    } else if same(field, "resolve") {
        Some(Type::Resolve)
    } else if same(field, "chargeback") {
        Some(Type::Chargeback)
    } else {
        None
    }
}

/// Where the four fields of a record stand in a row.
#[derive(Clone, Copy, Debug, PartialEq, Eq)]
pub struct Columns {
    pub typ: usize,
    pub client: usize,
    pub id: usize,
    pub amount: usize,
}

/// Whether column `i` of `header` is called `name`.
pub open spec fn named(header: Seq<Seq<char>>, name: Seq<char>, i: int) -> bool {
    0 <= i < header.len() && header[i] == name
}

/// Whether column `i` of `header` is the only one called `name`.
pub open spec fn sole(header: Seq<Seq<char>>, name: Seq<char>, i: int) -> bool {
    named(header, name, i) && forall|j: int| named(header, name, j) ==> j == i
}

/// The column of `header` called `name`, if there is exactly one.
pub open spec fn column(header: Seq<Seq<char>>, name: Seq<char>) -> Option<int> {
    if exists|i: int| sole(header, name, i) {
        Some(choose|i: int| sole(header, name, i))
    } else {
        None
    }
}

/// The columns that `header` gives to the four fields, by their names
/// `type`, `client`, `tx` and `amount`, if it names each exactly once.
/// Other columns are passed over.
pub open spec fn columns_of(header: Seq<Seq<char>>) -> Option<Columns> {
    match (
        column(header, "type"@),
        column(header, "client"@),
        column(header, "tx"@),
        column(header, "amount"@),
    ) {
        (Some(typ), Some(client), Some(id), Some(amount)) => Some(
            Columns {
                typ: typ as usize,
                client: client as usize,
                id: id as usize,
                amount: amount as usize,
            },
        ),
        _ => None,
    }
}

/// Finds the one column of `header` called `name`.
fn find_column(header: &Vec<String>, name: &str) -> (found: Option<usize>)
    ensures
        match found {
            Some(i) => column(texts(header@), name@) == Some(i as int),
            None => column(texts(header@), name@) is None,
        },
{
    let ghost head = texts(header@);
    let mut found: Option<usize> = None;
    let mut twice = false;
    let mut i: usize = 0;
    while i < header.len()
        invariant
            i <= header.len(),
            head == texts(header@),
            found is None ==> !twice && forall|j: int| 0 <= j < i ==> !named(head, name@, j),
            found matches Some(k) ==> k < i && named(head, name@, k as int),
            found matches Some(k) ==> !twice ==> forall|j: int|
                0 <= j < i && named(head, name@, j) ==> j == k,
            found matches Some(k) ==> twice ==> exists|j: int|
                0 <= j < i && j != k && named(head, name@, j),
        decreases header.len() - i,
    {
        if same(&header[i], name) {
            if found.is_some() {
                twice = true;
                assert(named(head, name@, i as int));
            } else {
                found = Some(i);
            }
        }
        i = i + 1;
    }
    match found {
        Some(k) if !twice => {
            assert(sole(head, name@, k as int));
            Some(k)
        },
        _ => {
            assert forall|i: int| !sole(head, name@, i) by {
                if sole(head, name@, i) {
                    match found {
                        Some(k) => {
                            let j = choose|j: int|
                                0 <= j < header.len() && j != k && named(head, name@, j);
                            assert(named(head, name@, k as int) && named(head, name@, j));
                        },
                        None => {},
                    }
                }
            }
            None
        },
    }
}

/// Reads a header row: finds the columns of the four fields by name.
pub fn columns(header: &Vec<String>) -> (found: Option<Columns>)
    ensures
        found == columns_of(texts(header@)),
{
    let typ = find_column(header, "type");
    let client = find_column(header, "client");
    let id = find_column(header, "tx");
    let amount = find_column(header, "amount");
    match (typ, client, id, amount) {
        (Some(typ), Some(client), Some(id), Some(amount)) => Some(
            Columns { typ, client, id, amount },
        ),
        _ => None,
    }
}

/// The transaction that the row `fields` writes, its fields standing in
/// `columns`, or why it writes none. The checks come in this order: all four
/// fields are there; the type is known; client and transaction id are
/// numbers of 16 and 32 bits; the amount is empty, and then absent, or a
/// decimal amount.
pub open spec fn record_of(columns: Option<Columns>, fields: Seq<Seq<char>>) -> Result<
    Tx,
    ParseError,
> {
    match columns {
        Some(at) if at.typ < fields.len() && at.client < fields.len() && at.id < fields.len()
            && at.amount < fields.len() => {
            match (
                type_of(fields[at.typ as int]),
                unsigned(fields[at.client as int], 0xFFFF),
                unsigned(fields[at.id as int], 0xFFFF_FFFF),
            ) {
                (None, _, _) => Err(ParseError { cause: Cause::UnknownType }),
                (Some(_), None, _) => Err(ParseError { cause: Cause::BadClient }),
                (Some(_), Some(_), None) => Err(ParseError { cause: Cause::BadTx }),
                (Some(typ), Some(client), Some(id)) => {
                    let written = fields[at.amount as int];
                    if written.len() == 0 {
                        Ok(Tx { typ, client: client as u16, id: id as u32, amount: None })
                    } else {
                        match amount(written) {
                            Some(units) => Ok(
                                Tx {
                                    typ,
                                    client: client as u16,
                                    id: id as u32,
                                    amount: Some(units),
                                },
                            ),
                            None => Err(ParseError { cause: Cause::BadAmount }),
                        }
                    }
                },
            }
        },
        _ => Err(ParseError { cause: Cause::MissingField }),
    }
}

/// Reads one row into a transaction.
pub fn record(columns: Option<Columns>, fields: &Vec<String>) -> (result: Result<Tx, ParseError>)
    ensures
        result == record_of(columns, texts(fields@)),
{
    let at = match columns {
        Some(at) => at,
        None => {
            return Err(ParseError { cause: Cause::MissingField });
        },
    };
    let n = fields.len();
    if at.typ >= n || at.client >= n || at.id >= n || at.amount >= n {
        return Err(ParseError { cause: Cause::MissingField });
    }
    let typ = match parse_type(&fields[at.typ]) {
        Some(typ) => typ,
        None => {
            return Err(ParseError { cause: Cause::UnknownType });
        },
    };
    let client = match parse_unsigned(fields[at.client].as_str(), 0xFFFF) {
        Some(client) => client as u16,
        None => {
            return Err(ParseError { cause: Cause::BadClient });
        },
    };
    let id = match parse_unsigned(fields[at.id].as_str(), 0xFFFF_FFFF) {
        Some(id) => id as u32,
        None => {
            return Err(ParseError { cause: Cause::BadTx });
        },
    };
    let written = fields[at.amount].as_str();
    if written.is_empty() {
        return Ok(Tx { typ, client, id, amount: None });
    }
    match parse_amount(written) {
        Some(units) => Ok(Tx { typ, client, id, amount: Some(units) }),
        None => Err(ParseError { cause: Cause::BadAmount }),
    }
}

impl Columns {
    /// The four fields in the order type, client, transaction id, amount.
    pub open spec fn positional() -> Columns {
        Columns { typ: 0, client: 1, id: 2, amount: 3 }
    }
}

/// The columns that the first row of an input gives to the four fields. A
/// first row that can be read is a header and names them; with one that
/// cannot, they are taken to stand in the order type, client, transaction
/// id, amount.
pub open spec fn columns_for(first: Option<Seq<Seq<char>>>) -> Option<Columns> {
    match first {
        Some(header) => columns_of(header),
        None => Some(Columns::positional()),
    }
}

/// The verdict on one row after the first: its transaction, or why it has
/// none. A row that could not be split into fields is unreadable.
pub open spec fn verdict(columns: Option<Columns>, row: Option<Seq<Seq<char>>>) -> Result<
    Tx,
    ParseError,
> {
    match row {
        Some(fields) => record_of(columns, fields),
        None => Err(ParseError { cause: Cause::Unreadable }),
    }
}

/// The verdicts on the rows of an input, in order: one for each row after
/// the first.
pub open spec fn records_of(rows: Seq<Option<Seq<Seq<char>>>>) -> Seq<Result<Tx, ParseError>> {
    if rows.len() == 0 {
        Seq::empty()
    } else {
        rows.skip(1).map_values(
            |row: Option<Seq<Seq<char>>>| verdict(columns_for(rows[0]), row),
        )
    }
}

/// The views of the fields of a row, if the row could be read.
pub open spec fn row_texts(row: Option<Vec<String>>) -> Option<Seq<Seq<char>>> {
    match row {
        Some(fields) => Some(texts(fields@)),
        None => None,
    }
}

/// Finds the columns of the four fields under the first row of an input:
/// by name where the row could be read, by position where it could not.
pub fn layout(first: &Option<Vec<String>>) -> (found: Option<Columns>)
    ensures
        found == columns_for(row_texts(*first)),
{
    match first {
        Some(header) => columns(header),
        None => Some(Columns { typ: 0, client: 1, id: 2, amount: 3 }),
    }
}

/// Gives the verdict on one row after the first: reads its transaction, or
/// says that the row could not be read.
pub fn judge(columns: Option<Columns>, row: &Option<Vec<String>>) -> (result: Result<
    Tx,
    ParseError,
>)
    ensures
        result == verdict(columns, row_texts(*row)),
{
    match row {
        Some(fields) => record(columns, fields),
        None => Err(ParseError { cause: Cause::Unreadable }),
    }
}

/// The fields of a row, or nothing for a row that `csv` reported as an
/// error.
fn readable(outcome: Result<Vec<String>, csv::Error>) -> (row: Option<Vec<String>>)
    ensures
        row == match outcome {
            Ok(fields) => Some(fields),
            Err(_) => None,
        },
{
    match outcome {
        Ok(fields) => Some(fields),
        Err(_) => None,
    }
}

/// A source of transaction records: the rows of an input, read one at a
/// time, each with its verdict.
pub struct Records<'a> {
    reader: csv::Reader<&'a [u8]>,
    columns: Option<Columns>,
}

impl<'a> Records<'a> {
    /// The verdicts that are still to come.
    pub closed spec fn remaining(&self) -> Seq<Result<Tx, ParseError>> {
        pending(self.reader).map_values(
            |row: Option<Seq<Seq<char>>>| verdict(self.columns, row),
        )
    }

    /// Starts reading `data`: takes the first row as the header.
    pub fn new(data: &'a [u8]) -> (records: Records<'a>)
        ensures
            records.remaining() == records_of(csv_rows(data@)),
    {
        let mut reader = reader_over(data);
        let columns = match read_row(&mut reader) {
            Some(outcome) => layout(&readable(outcome)),
            None => None,
        };
        Records { reader, columns }
    }

    /// Reads the next row and gives its verdict, or nothing at the end of
    /// the input.
    pub fn next(&mut self) -> (verdict: Option<Result<Tx, ParseError>>)
        ensures
            match verdict {
                Some(verdict) => {
                    &&& old(self).remaining().len() > 0
                    &&& verdict == old(self).remaining()[0]
                    &&& final(self).remaining() == old(self).remaining().skip(1)
                },
                None => old(self).remaining().len() == 0 && final(self).remaining() == old(
                    self,
                ).remaining(),
            },
    {
        match read_row(&mut self.reader) {
            Some(outcome) => Some(judge(self.columns, &readable(outcome))),
            None => None,
        }
    }
}

/// Parses the input into transactions: one verdict for each row after the
/// header, in the order of the rows.
pub fn input(data: &[u8]) -> (verdicts: Vec<Result<Tx, ParseError>>)
    ensures
        verdicts@ == records_of(csv_rows(data@)),
{
    let mut records = Records::new(data);
    let mut verdicts: Vec<Result<Tx, ParseError>> = Vec::new();
    let ghost all = records.remaining();
    loop
        invariant
            verdicts@ + records.remaining() == all,
        ensures
            verdicts@ == all,
        decreases records.remaining().len(),
    {
        match records.next() {
            Some(verdict) => {
                verdicts.push(verdict);
            },
            None => {
                break;
            },
        }
    }
    verdicts
}

} // verus!
