use vstd::arithmetic::div_mod::{lemma_add_mod_noop, lemma_sub_mod_noop};
use vstd::prelude::*;
use vstd::slice::slice_subrange;
use vstd::string::StringSliceAdditionalSpecFns;

use crate::error::{
    ErrorCause, IHexError, IntelHexError, checksum_message, checksum_text, length_message,
    length_text, type_message, type_message_text,
};
use crate::hex_text::{
    ascii_chars, decode_hex, encode_hex_upper, hex_decode, hex_upper, is_hex_text,
    lemma_decode_hex_upper, lemma_hex_upper_digits, lemma_hex_upper_subrange,
};
use crate::util::{byte_sum, twos_comp};

verus! {

/// The character that opens a record line.
pub const RECORD_START: u8 = 0x3A;

/// The five record kinds of the format.
#[derive(Debug, Clone, Copy, PartialEq, Eq, Structural)]
pub enum RecordType {
    Data,
    EndOfFile,
    ExtendedSegmentAddress,
    ExtendedLinearAddress,
    StartLinearAddress,
}

/// The text that `String::from_utf8_lossy` makes of a byte sequence.
pub uninterp spec fn utf8_lossy(b: Seq<u8>) -> Seq<char>;

/// Relies on `String::from_utf8_lossy`: the text is a function of the bytes,
/// and ASCII bytes come out as the same characters.
#[verifier::external_body]
fn lossy_text(b: &[u8]) -> (r: String)
    ensures
        r@ == utf8_lossy(b@),
        (forall|i: int| 0 <= i < b@.len() ==> #[trigger] b@[i] < 0x80) ==> r@ == ascii_chars(b@),
{
    String::from_utf8_lossy(b).into_owned()
}

/// The message of a type field that names no record kind.
pub open spec fn type_text(code: Seq<u8>) -> Seq<char> {
    type_message_text(utf8_lossy(code))
}

/// The one-byte code of a record kind.
pub open spec fn kind_code(k: RecordType) -> u8 {
    match k {
        RecordType::Data => 0,
        RecordType::EndOfFile => 1,
        RecordType::ExtendedSegmentAddress => 2,
        RecordType::ExtendedLinearAddress => 4,
        RecordType::StartLinearAddress => 5,
    }
}

/// The kind that a two-character type field names, if it names one.
pub open spec fn kind_of_field(s: Seq<u8>) -> Option<RecordType> {
    if s.len() != 2 || s[0] != 0x30 {
        None
    } else if s[1] == 0x30 {
        Some(RecordType::Data)
    } else if s[1] == 0x31 {
        Some(RecordType::EndOfFile)
    } else if s[1] == 0x32 {
        Some(RecordType::ExtendedSegmentAddress)
    } else if s[1] == 0x34 {
        Some(RecordType::ExtendedLinearAddress)
    } else if s[1] == 0x35 {
        Some(RecordType::StartLinearAddress)
    } else {
        None
    }
}

impl RecordType {
    /// The kind named by a two-character type field.
    pub fn parse(s: &[u8]) -> (r: Result<RecordType, IntelHexError>)
        ensures
            match r {
                Ok(k) => kind_of_field(s@) == Some(k),
                Err(e) => {
                    &&& kind_of_field(s@) is None
                    &&& e.err_type == IHexError::RecordInvalidType
                    &&& e.source is None
                    &&& e.msg@ == type_text(s@)
                },
            },
    {
        if s.len() == 2 && s[0] == 0x30 {
            if s[1] == 0x30 {
                return Ok(RecordType::Data);
            } else if s[1] == 0x31 {
                return Ok(RecordType::EndOfFile);
            } else if s[1] == 0x32 {
                return Ok(RecordType::ExtendedSegmentAddress);
            } else if s[1] == 0x34 {
                return Ok(RecordType::ExtendedLinearAddress);
            } else if s[1] == 0x35 {
                return Ok(RecordType::StartLinearAddress);
            }
        }
        let code = lossy_text(s);
        Err(IHexError::RecordInvalidType.new(type_message(code.as_str()).as_str()))
    }

    /// The one-byte code of this kind.
    pub fn to_u8(&self) -> (r: u8)
        ensures
            r == kind_code(*self),
    {
        match self {
            RecordType::Data => 0,
            RecordType::EndOfFile => 1,
            RecordType::ExtendedSegmentAddress => 2,
            RecordType::ExtendedLinearAddress => 4,
            RecordType::StartLinearAddress => 5,
        }
    }
}

/// Declares `bytes::Bytes`, the immutable buffer that holds a record's payload.
#[verifier::external_type_specification]
#[verifier::external_body]
pub struct ExBytes(bytes::Bytes);

/// The bytes that a `Bytes` buffer holds.
pub uninterp spec fn bytes_of(b: bytes::Bytes) -> Seq<u8>;

/// Relies on `Bytes::from(Vec<u8>)`: the buffer holds the vector's bytes.
#[verifier::external_body]
pub(crate) fn bytes_from_vec(v: Vec<u8>) -> (r: bytes::Bytes)
    ensures
        bytes_of(r) == v@,
{
    bytes::Bytes::from(v)
}

/// Relies on `Bytes::as_ref`: a view of the bytes that the buffer holds.
#[verifier::external_body]
pub(crate) fn bytes_slice(b: &bytes::Bytes) -> (r: &[u8])
    ensures
        r@ == bytes_of(*b),
{
    b.as_ref()
}

/// A record as plain values.
pub struct RecordModel {
    pub len: u8,
    pub addr: u16,
    pub rtype: RecordType,
    pub data: Seq<u8>,
    pub checksum: u8,
}

/// The serialized bytes of a record that the checksum covers: length,
/// address (high byte first), type code and payload.
pub open spec fn record_body(r: RecordModel) -> Seq<u8> {
    seq![r.len, (r.addr / 256) as u8, (r.addr % 256) as u8, kind_code(r.rtype)] + r.data
}

/// The full serialized bytes of a record: its body, then its checksum.
pub open spec fn record_bytes(r: RecordModel) -> Seq<u8> {
    record_body(r).push(r.checksum)
}

/// The checksum of a byte sequence: the two's complement of its sum, modulo 256.
pub open spec fn checksum_of(body: Seq<u8>) -> u8 {
    ((0 - byte_sum(body)) % 256) as u8
}

/// The record text: the start marker, then the uppercase hexadecimal of its bytes.
pub open spec fn record_text(r: RecordModel) -> Seq<u8> {
    seq![RECORD_START] + hex_upper(record_bytes(r))
}

/// A record whose declared length matches its payload and whose checksum is right.
pub open spec fn record_wf(r: RecordModel) -> bool {
    r.data.len() == r.len as int && r.checksum == checksum_of(record_body(r))
}

/// The first position at or after `from` that holds `c`, or the length if none does.
pub open spec fn first_index(s: Seq<u8>, c: u8, from: int) -> int
    decreases s.len() - from,
{
    if from >= s.len() {
        s.len() as int
    } else if from >= 0 && s[from] == c {
        from
    } else {
        first_index(s, c, from + 1)
    }
}

/// The kind of a record fault and its message.
pub type LineFault = (IHexError, Seq<char>);

/// What parsing a line gives: a record, no record (no start marker), or the fault.
#[verifier::opaque]
pub open spec fn parse_line(line: Seq<u8>) -> Result<Option<RecordModel>, LineFault> {
    let m = first_index(line, RECORD_START, 0);
    if m >= line.len() {
        Ok(None)
    } else {
        let rs = line.skip(m + 1);
        if rs.len() < 2 {
            Err((IHexError::RecordInvalidLength, length_text(rs.len(), 10)))
        } else if !is_hex_text(rs.take(2)) {
            Err((IHexError::RecordBadEndcoding, "Error while decoding record length"@))
        } else {
            let len = hex_decode(rs.take(2))[0];
            let data_end = 8 + 2 * len;
            if rs.len() < data_end + 2 {
                Err((IHexError::RecordInvalidLength, length_text(rs.len(), (data_end + 2) as nat)))
            } else if !is_hex_text(rs.subrange(2, 6)) {
                Err((IHexError::RecordBadEndcoding, "Error while decoding address"@))
            } else if kind_of_field(rs.subrange(6, 8)) is None {
                Err((IHexError::RecordInvalidType, type_text(rs.subrange(6, 8))))
            } else if !is_hex_text(rs.subrange(8, data_end)) {
                Err((IHexError::RecordBadEndcoding, "Error while decoding data"@))
            } else if !is_hex_text(rs.subrange(data_end, data_end + 2)) {
                Err((IHexError::RecordBadEndcoding, "Error while decoding checksum"@))
            } else {
                let a = hex_decode(rs.subrange(2, 6));
                let r = RecordModel {
                    len,
                    addr: (a[0] * 256 + a[1]) as u16,
                    rtype: kind_of_field(rs.subrange(6, 8)).unwrap(),
                    data: hex_decode(rs.subrange(8, data_end)),
                    checksum: hex_decode(rs.subrange(data_end, data_end + 2))[0],
                };
                if r.checksum != checksum_of(record_body(r)) {
                    Err(
                        (
                            IHexError::RecordBadChecksum,
                            checksum_text(r.checksum as nat, checksum_of(record_body(r)) as nat),
                        ),
                    )
                } else {
                    Ok(Some(r))
                }
            }
        }
    }
}

/// One record of a HEX document.
#[derive(Debug)]
pub struct Record {
    pub len: u8,
    pub addr: u16,
    pub rtype: RecordType,
    pub data: bytes::Bytes,
    pub checksum: u8,
}

impl View for Record {
    type V = RecordModel;

    open spec fn view(&self) -> RecordModel {
        RecordModel {
            len: self.len,
            addr: self.addr,
            rtype: self.rtype,
            data: bytes_of(self.data),
            checksum: self.checksum,
        }
    }
}

/// The outcome of parsing a line, as plain values.
pub open spec fn line_outcome(r: Result<Option<Record>, IntelHexError>) -> Result<Option<RecordModel>, LineFault> {
    match r {
        Ok(Some(rec)) => Ok(Some(rec@)),
        Ok(None) => Ok(None),
        Err(e) => Err((e.err_type, e.msg@)),
    }
}

impl Record {
    /// The serialized bytes that the checksum covers.
    fn body_vec(&self) -> (v: Vec<u8>)
        ensures
            v@ == record_body(self@),
    {
        let mut v: Vec<u8> = Vec::new();
        v.push(self.len);
        v.push((self.addr / 256) as u8);
        v.push((self.addr % 256) as u8);
        v.push(self.rtype.to_u8());
        let ghost head = v@;
        let d = bytes_slice(&self.data);
        let mut i: usize = 0;
        while i < d.len()
            invariant
                0 <= i <= d@.len(),
                d@ == bytes_of(self.data),
                head == seq![self.len, (self.addr / 256) as u8, (self.addr % 256) as u8, kind_code(self.rtype)],
                v@ == head + d@.take(i as int),
            decreases d@.len() - i,
        {
            v.push(d[i]);
            i += 1;
            assert(v@ =~= head + d@.take(i as int));
        }
        assert(d@.take(d@.len() as int) =~= d@);
        v
    }

    /// The full serialized bytes, as a vector.
    pub(crate) fn bytes_vec(&self) -> (v: Vec<u8>)
        ensures
            v@ == record_bytes(self@),
    {
        let mut v = self.body_vec();
        v.push(self.checksum);
        v
    }

    /// The checksum that the record's bytes call for.
    pub fn calculate_checksum(&self) -> (r: u8)
        ensures
            r == checksum_of(record_body(self@)),
    {
        let b = self.body_vec();
        let mut acc: u64 = 0;
        let mut i: usize = 0;
        while i < b.len()
            invariant
                0 <= i <= b@.len(),
                acc < 256,
                acc as int == byte_sum(b@.take(i as int)) % 256,
            decreases b@.len() - i,
        {
            proof {
                assert(b@.take(i + 1).drop_last() =~= b@.take(i as int));
                lemma_add_mod_noop(byte_sum(b@.take(i as int)), b@[i as int] as int, 256);
            }
            acc = (acc + b[i] as u64) % 256;
            i += 1;
        }
        proof {
            assert(b@.take(b@.len() as int) =~= b@);
            lemma_sub_mod_noop(0, byte_sum(b@), 256);
        }
        twos_comp(acc)
    }

    /// The number of bytes that the record serializes to.
    pub fn binary_size(&self) -> (r: usize)
        requires
            bytes_of(self.data).len() + 5 <= usize::MAX,
        ensures
            r == bytes_of(self.data).len() + 5,
            r == record_bytes(self@).len(),
    {
        bytes_slice(&self.data).len() + 5
    }

    /// The serialized bytes: length, address (high byte first), type code, payload, checksum.
    pub fn to_bytes(&self) -> (r: bytes::Bytes)
        ensures
            bytes_of(r) == record_bytes(self@),
    {
        bytes_from_vec(self.bytes_vec())
    }

    /// The record as a line of text: the start marker, then its bytes in uppercase hexadecimal.
    pub fn to_hex_str(&self) -> (r: String)
        ensures
            r@ == ascii_chars(record_text(self@)),
    {
        let b = self.bytes_vec();
        let digits = encode_hex_upper(b.as_slice());
        let mut s = String::from_str(":");
        s.append(digits.as_str());
        proof {
            reveal_strlit(":");
            assert(s@ =~= ascii_chars(record_text(self@)));
        }
        s
    }
    /// Parses one line given as bytes: `None` where the line holds no start
    /// marker, the record where its fields are well formed and its checksum is right.
    pub fn parse_bytes(line: &[u8]) -> (r: Result<Option<Record>, IntelHexError>)
        ensures
            line_outcome(r) == parse_line(line@),
            r matches Ok(Some(rec)) ==> record_wf(rec@),
            r matches Err(e) ==> e.has_record_cause(),
    {
        reveal(parse_line);
        let mut m: usize = 0;
        while m < line.len() && line[m] != RECORD_START
            invariant
                0 <= m <= line@.len(),
                first_index(line@, RECORD_START, 0) == first_index(line@, RECORD_START, m as int),
            decreases line@.len() - m,
        {
            m += 1;
        }
        if m == line.len() {
            return Ok(None);
        }
        let rs = slice_subrange(line, m + 1, line.len());
        assert(rs@ == line@.skip(m + 1));
        if rs.len() < 2 {
            return Err(IHexError::RecordInvalidLength.new(length_message(rs.len(), 10).as_str()));
        }
        let len: u8 = match decode_hex(slice_subrange(rs, 0, 2)) {
            Ok(v) => v[0],
            Err(e) => {
                return Err(
                    IHexError::RecordBadEndcoding.new("Error while decoding record length").set_source(
                        ErrorCause::Hex(e),
                    ),
                );
            },
        };
        let data_end: usize = 8 + 2 * (len as usize);
        let record_end: usize = data_end + 2;
        if rs.len() < record_end {
            return Err(
                IHexError::RecordInvalidLength.new(length_message(rs.len(), record_end).as_str()),
            );
        }
        let addr: u16 = match decode_hex(slice_subrange(rs, 2, 6)) {
            Ok(v) => (v[0] as u16) * 256 + v[1] as u16,
            Err(e) => {
                return Err(
                    IHexError::RecordBadEndcoding.new("Error while decoding address").set_source(
                        ErrorCause::Hex(e),
                    ),
                );
            },
        };
        let rtype = match RecordType::parse(slice_subrange(rs, 6, 8)) {
            Ok(k) => k,
            Err(e) => {
                return Err(e);
            },
        };
        let data = match decode_hex(slice_subrange(rs, 8, data_end)) {
            Ok(v) => v,
            Err(e) => {
                return Err(
                    IHexError::RecordBadEndcoding.new("Error while decoding data").set_source(
                        ErrorCause::Hex(e),
                    ),
                );
            },
        };
        let checksum: u8 = match decode_hex(slice_subrange(rs, data_end, record_end)) {
            Ok(v) => v[0],
            Err(e) => {
                return Err(
                    IHexError::RecordBadEndcoding.new("Error while decoding checksum").set_source(
                        ErrorCause::Hex(e),
                    ),
                );
            },
        };
        let record = Record { len, addr, rtype, data: bytes_from_vec(data), checksum };
        let calculated = record.calculate_checksum();
        if calculated == record.checksum {
            Ok(Some(record))
        } else {
            Err(
                IHexError::RecordBadChecksum.new(
                    checksum_message(record.checksum, calculated).as_str(),
                ),
            )
        }
    }

    /// Parses one line of text; see `parse_bytes`.
    pub fn parse(line: &str) -> (r: Result<Option<Record>, IntelHexError>)
        ensures
            line_outcome(r) == parse_line(line.spec_bytes()),
            r matches Ok(Some(rec)) ==> record_wf(rec@),
            r matches Err(e) ==> e.has_record_cause(),
    {
        Record::parse_bytes(line.as_bytes())
    }
}

/// The bytes `b[a..c]` appear in hexadecimal text as well-formed digits that decode back to them.
proof fn lemma_field(b: Seq<u8>, a: int, c: int)
    requires
        0 <= a <= c <= b.len(),
    ensures
        hex_upper(b).subrange(2 * a, 2 * c) == hex_upper(b.subrange(a, c)),
        is_hex_text(hex_upper(b).subrange(2 * a, 2 * c)),
        hex_decode(hex_upper(b).subrange(2 * a, 2 * c)) == b.subrange(a, c),
{
    lemma_hex_upper_subrange(b, a, c);
    lemma_hex_upper_digits(b.subrange(a, c));
    lemma_decode_hex_upper(b.subrange(a, c));
}

/// The fields of a well-formed record's hexadecimal text decode to the record's values.
proof fn lemma_record_fields(r: RecordModel)
    requires
        r.data.len() == r.len as int,
    ensures
        ({
            let h = hex_upper(record_bytes(r));
            let n = r.len as int;
            &&& h.len() == 2 * n + 10
            &&& is_hex_text(h.take(2))
            &&& hex_decode(h.take(2))[0] == r.len
            &&& is_hex_text(h.subrange(2, 6))
            &&& (hex_decode(h.subrange(2, 6))[0] * 256 + hex_decode(h.subrange(2, 6))[1]) as u16
                == r.addr
            &&& kind_of_field(h.subrange(6, 8)) == Some(r.rtype)
            &&& is_hex_text(h.subrange(8, 8 + 2 * n))
            &&& hex_decode(h.subrange(8, 8 + 2 * n)) == r.data
            &&& is_hex_text(h.subrange(8 + 2 * n, 10 + 2 * n))
            &&& hex_decode(h.subrange(8 + 2 * n, 10 + 2 * n))[0] == r.checksum
        }),
{
    let b = record_bytes(r);
    let h = hex_upper(b);
    let n = r.len as int;
    assert(b.len() == n + 5);
    lemma_field(b, 0, 1);
    assert(h.take(2) =~= h.subrange(0, 2));
    assert(b.subrange(0, 1) =~= seq![r.len]);
    lemma_field(b, 1, 3);
    assert(b.subrange(1, 3) =~= seq![(r.addr / 256) as u8, (r.addr % 256) as u8]);
    lemma_field(b, 3, 4);
    assert(b.subrange(3, 4) =~= seq![kind_code(r.rtype)]);
    let k = kind_code(r.rtype) as int;
    assert(hex_upper(seq![kind_code(r.rtype)])[0] == 0x30);
    assert(hex_upper(seq![kind_code(r.rtype)])[1] == 0x30 + k);
    lemma_field(b, 4, 4 + n);
    assert(b.subrange(4, 4 + n) =~= r.data);
    lemma_field(b, 4 + n, 5 + n);
    assert(b.subrange(4 + n, 5 + n) =~= seq![r.checksum]);
}

/// A well-formed record's text parses back to that record.
pub proof fn lemma_parse_record_text(r: RecordModel)
    requires
        record_wf(r),
    ensures
        parse_line(record_text(r)) == Ok::<Option<RecordModel>, LineFault>(Some(r)),
{
    reveal(parse_line);
    let t = record_text(r);
    assert(first_index(t, RECORD_START, 0) == 0);
    assert(t.skip(1) =~= hex_upper(record_bytes(r)));
    lemma_record_fields(r);
}

/// A record's text is ASCII: the start marker and hexadecimal digits, no newline.
pub proof fn lemma_record_text_chars(r: RecordModel)
    ensures
        forall|i: int|
            0 <= i < record_text(r).len() ==> #[trigger] record_text(r)[i] < 0x80
                && record_text(r)[i] != 0x0A,
{
    lemma_hex_upper_digits(record_bytes(r));
    let t = record_text(r);
    assert forall|i: int| 0 <= i < t.len() implies #[trigger] t[i] < 0x80 && t[i] != 0x0A by {
        if i > 0 {
            assert(t[i] == hex_upper(record_bytes(r))[i - 1]);
        }
    }
}

/// A well-formed record whose checksum is replaced by any other value is
/// rejected with a checksum fault.
pub proof fn lemma_corrupted_checksum(r: RecordModel, c: u8)
    requires
        record_wf(r),
        c != r.checksum,
    ensures
        parse_line(record_text(RecordModel { checksum: c, ..r })) matches Err((k, _))
            && k == IHexError::RecordBadChecksum,
{
    reveal(parse_line);
    let bad = RecordModel { checksum: c, ..r };
    let t = record_text(bad);
    assert(first_index(t, RECORD_START, 0) == 0);
    assert(t.skip(1) =~= hex_upper(record_bytes(bad)));
    lemma_record_fields(bad);
    assert(record_body(bad) == record_body(r));
}

/// A line whose declared payload length needs more characters than follow the
/// start marker is rejected with a length fault.
pub proof fn lemma_short_line(line: Seq<u8>)
    requires
        first_index(line, RECORD_START, 0) < line.len(),
        ({
            let rs = line.skip(first_index(line, RECORD_START, 0) + 1);
            rs.len() < 2 || (is_hex_text(rs.take(2)) && rs.len() < 10 + 2 * hex_decode(rs.take(2))[0])
        }),
    ensures
        parse_line(line) matches Err((k, _)) && k == IHexError::RecordInvalidLength,
{
    reveal(parse_line);
}

/// A well-formed record's text whose type field is replaced by two characters
/// that name no record kind is rejected with a type fault.
pub proof fn lemma_unknown_type(r: RecordModel, code: Seq<u8>)
    requires
        record_wf(r),
        code.len() == 2,
        kind_of_field(code) is None,
    ensures
        parse_line(record_text(r).take(7) + code + record_text(r).skip(9)) matches Err((k, _))
            && k == IHexError::RecordInvalidType,
{
    reveal(parse_line);
    let t = record_text(r);
    let h = hex_upper(record_bytes(r));
    lemma_record_fields(r);
    let t2 = t.take(7) + code + t.skip(9);
    assert(t.skip(1) =~= h);
    assert(t2[0] == RECORD_START);
    assert(first_index(t2, RECORD_START, 0) == 0);
    let rs = t2.skip(1);
    assert(rs.len() == h.len());
    assert(rs.take(2) =~= h.take(2));
    assert(rs.subrange(2, 6) =~= h.subrange(2, 6));
    assert(rs.subrange(6, 8) =~= code);
}

} // verus!
