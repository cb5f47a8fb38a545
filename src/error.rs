use vstd::prelude::*;

use crate::hex_text::upper_digit;

verus! {

/// The kind of a failure.
#[derive(Debug, Clone, Copy, PartialEq, Eq, Structural)]
pub enum IHexError {
    RecordInvalidStart,
    RecordInvalidType,
    RecordInvalidLength,
    RecordBadChecksum,
    RecordBadEndcoding,
    FileBadRecord,
    FileErrorLoad,
    FileErrorOpen,
    FileErrorWrite,
}

/// What caused a failure: a hexadecimal decoding fault, a failure one level
/// down, or the text of a fault outside the library (such as a file error).
#[derive(Debug)]
pub enum ErrorCause {
    Hex(hex::FromHexError),
    Nested(Box<IntelHexError>),
    External(String),
}

/// A failure of the codec: its kind, a message and, where there is one, its cause.
#[derive(Debug)]
pub struct IntelHexError {
    pub msg: String,
    pub err_type: IHexError,
    pub source: Option<ErrorCause>,
}

impl IHexError {
    /// An error of this kind with the given message and no cause.
    pub fn new(self, msg: &str) -> (r: IntelHexError)
        ensures
            r.err_type == self,
            r.msg@ == msg@,
            r.source is None,
    {
        IntelHexError { msg: msg.to_owned(), err_type: self, source: None }
    }
}

impl IntelHexError {
    /// The same error, now with the given cause.
    pub fn set_source(self, source: ErrorCause) -> (r: IntelHexError)
        ensures
            r.err_type == self.err_type,
            r.msg == self.msg,
            r.source == Some(source),
    {
        IntelHexError { msg: self.msg, err_type: self.err_type, source: Some(source) }
    }

    /// The cause that a record fault carries: the hexadecimal decoding fault
    /// for an encoding error, none for every other kind.
    pub open spec fn has_record_cause(self) -> bool {
        if self.err_type == IHexError::RecordBadEndcoding {
            self.source matches Some(ErrorCause::Hex(_))
        } else {
            self.source is None
        }
    }

    /// The error that this one wraps, if it wraps one.
    pub open spec fn inner(self) -> Option<IntelHexError> {
        match self.source {
            Some(ErrorCause::Nested(b)) => Some(*b),
            _ => None,
        }
    }
}

/// The character of a digit below sixteen (uppercase for ten and above).
pub open spec fn digit_char(d: int) -> char {
    upper_digit(d) as char
}

/// The decimal digits of a number, most significant first.
pub open spec fn decimal(n: nat) -> Seq<char>
    decreases n,
{
    if n < 10 {
        seq![digit_char(n as int)]
    } else {
        decimal(n / 10) + seq![digit_char((n % 10) as int)]
    }
}

/// The uppercase hexadecimal digits of a number, most significant first.
pub open spec fn hexadecimal(n: nat) -> Seq<char>
    decreases n,
{
    if n < 16 {
        seq![digit_char(n as int)]
    } else {
        hexadecimal(n / 16) + seq![digit_char((n % 16) as int)]
    }
}

/// The message of a record that is shorter than its fields require.
pub open spec fn length_text(actual: nat, expected: nat) -> Seq<char> {
    "Record length: "@ + decimal(actual) + ", expected: "@ + decimal(expected)
}

/// The message of a record whose checksum is wrong.
pub open spec fn checksum_text(declared: nat, calculated: nat) -> Seq<char> {
    "Bad checksum: 0x"@ + hexadecimal(declared) + ", calculated: 0x"@ + hexadecimal(calculated)
        + " ("@ + decimal(calculated) + ")"@
}

/// The message of a type field, given as text, that names no record kind.
pub open spec fn type_message_text(code: Seq<char>) -> Seq<char> {
    "Invalid record type: "@ + code
}

/// The message of a document error that names the line of a bad record.
pub open spec fn line_text(line: nat) -> Seq<char> {
    "Error while parsing record on line "@ + decimal(line)
}

/// A one-character string holding a digit below sixteen.
fn digit_str(d: usize) -> (r: &'static str)
    requires
        d < 16,
    ensures
        r@ == seq![digit_char(d as int)],
{
    proof {
        reveal_strlit("0");
        reveal_strlit("1");
        reveal_strlit("2");
        reveal_strlit("3");
        reveal_strlit("4");
        reveal_strlit("5");
        reveal_strlit("6");
        reveal_strlit("7");
        reveal_strlit("8");
        reveal_strlit("9");
        reveal_strlit("A");
        reveal_strlit("B");
        reveal_strlit("C");
        reveal_strlit("D");
        reveal_strlit("E");
        reveal_strlit("F");
    }
    match d {
        0 => "0",
        1 => "1",
        2 => "2",
        3 => "3",
        4 => "4",
        5 => "5",
        6 => "6",
        7 => "7",
        8 => "8",
        9 => "9",
        10 => "A",
        11 => "B",
        12 => "C",
        13 => "D",
        14 => "E",
        _ => "F",
    }
}

/// Appends the decimal digits of a number.
fn append_decimal(s: &mut String, n: usize)
    ensures
        final(s)@ == old(s)@ + decimal(n as nat),
    decreases n,
{
    if n >= 10 {
        append_decimal(s, n / 10);
    }
    s.append(digit_str(n % 10));
    assert(final(s)@ =~= old(s)@ + decimal(n as nat));
}

/// Appends the uppercase hexadecimal digits of a number.
fn append_hexadecimal(s: &mut String, n: usize)
    ensures
        final(s)@ == old(s)@ + hexadecimal(n as nat),
    decreases n,
{
    if n >= 16 {
        append_hexadecimal(s, n / 16);
    }
    s.append(digit_str(n % 16));
    assert(final(s)@ =~= old(s)@ + hexadecimal(n as nat));
}

/// The message of a record that is shorter than its fields require.
pub fn length_message(actual: usize, expected: usize) -> (r: String)
    ensures
        r@ == length_text(actual as nat, expected as nat),
{
    let mut s = String::from_str("Record length: ");
    append_decimal(&mut s, actual);
    s.append(", expected: ");
    append_decimal(&mut s, expected);
    assert(s@ =~= length_text(actual as nat, expected as nat));
    s
}

/// The message of a record whose checksum is wrong.
pub fn checksum_message(declared: u8, calculated: u8) -> (r: String)
    ensures
        r@ == checksum_text(declared as nat, calculated as nat),
{
    let mut s = String::from_str("Bad checksum: 0x");
    append_hexadecimal(&mut s, declared as usize);
    s.append(", calculated: 0x");
    append_hexadecimal(&mut s, calculated as usize);
    s.append(" (");
    append_decimal(&mut s, calculated as usize);
    s.append(")");
    assert(s@ =~= checksum_text(declared as nat, calculated as nat));
    s
}

/// The message of a type field, given as text, that names no record kind.
pub fn type_message(code: &str) -> (r: String)
    ensures
        r@ == type_message_text(code@),
{
    let mut s = String::from_str("Invalid record type: ");
    s.append(code);
    s
}

/// The message of a document error that names the line of a bad record.
pub fn line_message(line: usize) -> (r: String)
    ensures
        r@ == line_text(line as nat),
{
    let mut s = String::from_str("Error while parsing record on line ");
    append_decimal(&mut s, line);
    assert(s@ =~= line_text(line as nat));
    s
}

} // verus!
