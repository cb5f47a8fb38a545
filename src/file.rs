use vstd::prelude::*;
use vstd::slice::slice_subrange;
use vstd::string::StringSliceAdditionalSpecFns;
use vstd::utf8::{encode_utf8, is_ascii_chars, is_ascii_chars_encode_utf8};

use crate::error::{ErrorCause, IHexError, IntelHexError, line_message, line_text};
use crate::hex_text::ascii_chars;
use crate::record::{
    LineFault, RECORD_START, Record, RecordModel, bytes_from_vec, bytes_of, first_index,
    lemma_parse_record_text, lemma_record_text_chars, parse_line, record_bytes, record_text,
    record_wf,
};

verus! {

/// The byte that ends a line.
pub const NEWLINE: u8 = 0x0A;

/// The records of a parsed line, as a sequence of zero or one.
pub open spec fn found(o: Option<RecordModel>) -> Seq<RecordModel> {
    match o {
        Some(r) => seq![r],
        None => Seq::empty(),
    }
}

/// Records parsed before a result, put in front of it.
pub open spec fn prepend(
    a: Seq<RecordModel>,
    r: Result<Seq<RecordModel>, (nat, LineFault)>,
) -> Result<Seq<RecordModel>, (nat, LineFault)> {
    match r {
        Ok(v) => Ok(a + v),
        Err(e) => Err(e),
    }
}

/// What loading a document gives: its records in order, or the first bad line's
/// number (counting from `line`) and the kind of its fault.
pub open spec fn parse_doc(s: Seq<u8>, line: nat) -> Result<Seq<RecordModel>, (nat, LineFault)>
    decreases s.len(),
{
    let j = first_index(s, NEWLINE, 0);
    match parse_line(s.take(j)) {
        Err(k) => Err((line, k)),
        Ok(o) => {
            if 0 <= j < s.len() {
                prepend(found(o), parse_doc(s.skip(j + 1), line + 1))
            } else {
                Ok(found(o))
            }
        },
    }
}

/// The text of a document: the records' texts joined by single newlines.
pub open spec fn doc_text(rs: Seq<RecordModel>) -> Seq<u8>
    decreases rs.len(),
{
    if rs.len() == 0 {
        Seq::empty()
    } else if rs.len() == 1 {
        record_text(rs[0])
    } else {
        record_text(rs[0]) + seq![NEWLINE] + doc_text(rs.drop_first())
    }
}

/// The binary image of a document: the records' bytes one after another.
pub open spec fn doc_bytes(rs: Seq<RecordModel>) -> Seq<u8>
    decreases rs.len(),
{
    if rs.len() == 0 {
        Seq::empty()
    } else {
        doc_bytes(rs.drop_last()) + record_bytes(rs.last())
    }
}

/// The total serialized size of a document's records.
pub open spec fn doc_size(rs: Seq<RecordModel>) -> int
    decreases rs.len(),
{
    if rs.len() == 0 {
        0
    } else {
        doc_size(rs.drop_last()) + rs.last().data.len() + 5
    }
}

/// The records as plain values.
pub open spec fn records_view(v: Seq<Record>) -> Seq<RecordModel> {
    v.map_values(|r: Record| r@)
}

/// The error of a bad record on line `n` (counting from one) whose fault is `k`:
/// it names the line and wraps the record's own error, with that error's kind,
/// message and cause.
pub open spec fn is_line_failure(e: IntelHexError, n: nat, k: LineFault) -> bool {
    &&& e.err_type == IHexError::FileBadRecord
    &&& e.msg@ == line_text(n)
    &&& e.inner() matches Some(i) && i.err_type == k.0 && i.msg@ == k.1 && i.has_record_cause()
}

/// A parsed HEX document.
pub struct IntelHexFile {
    pub path: Option<String>,
    pub size: usize,
    pub records: Vec<Record>,
}

impl View for IntelHexFile {
    type V = Seq<RecordModel>;

    open spec fn view(&self) -> Seq<RecordModel> {
        records_view(self.records@)
    }
}

/// Wraps the error of a bad record with the number of its line.
fn line_failure(e: IntelHexError, line: usize) -> (r: IntelHexError)
    requires
        e.has_record_cause(),
    ensures
        is_line_failure(r, line as nat, (e.err_type, e.msg@)),
        r.inner() == Some(e),
{
    let outer = IHexError::FileBadRecord.new(line_message(line).as_str());
    outer.set_source(ErrorCause::Nested(Box::new(e)))
}

/// Walks the lines of a document and parses each; stops at the first bad line.
fn parse_records(b: &[u8]) -> (r: Result<Vec<Record>, IntelHexError>)
    ensures
        match r {
            Ok(v) => parse_doc(b@, 1) == Ok::<_, (nat, LineFault)>(records_view(v@)) && forall|
                i: int,
            | 0 <= i < v@.len() ==> record_wf(#[trigger] v@[i]@),
            Err(e) => parse_doc(b@, 1) matches Err((n, k)) && is_line_failure(e, n, k),
        },
{
    let mut records: Vec<Record> = Vec::new();
    let mut i: usize = 0;
    let mut done: usize = 0;
    assert(b@.skip(0) =~= b@);
    assert(prepend(Seq::empty(), parse_doc(b@, 1)) == parse_doc(b@, 1)) by {
        if let Ok(v) = parse_doc(b@, 1) {
            assert(Seq::<RecordModel>::empty() + v =~= v);
        }
    }
    loop
        invariant
            0 <= i <= b@.len(),
            done <= i,
            forall|k: int| 0 <= k < records@.len() ==> record_wf(#[trigger] records@[k]@),
            parse_doc(b@, 1) == prepend(records_view(records@), parse_doc(b@.skip(i as int), (done + 1) as nat)),
        decreases b@.len() - i,
    {
        let mut j: usize = i;
        while j < b.len() && b[j] != NEWLINE
            invariant
                i <= j <= b@.len(),
                forall|k: int| i <= k < j ==> b@[k] != NEWLINE,
            decreases b@.len() - j,
        {
            j += 1;
        }
        let ghost rest = b@.skip(i as int);
        proof {
            lemma_first_index_at(rest, NEWLINE, 0, j - i);
            assert(rest.take(j - i) =~= b@.subrange(i as int, j as int));
        }
        let line = slice_subrange(b, i, j);
        let ghost before = records_view(records@);
        match Record::parse_bytes(line) {
            Err(e) => {
                assert(first_index(line@, RECORD_START, 0) < line@.len()) by {
                    reveal(parse_line);
                }
                return Err(line_failure(e, done + 1));
            },
            Ok(Some(rec)) => {
                records.push(rec);
            },
            Ok(None) => {},
        }
        let ghost o = parse_line(b@.subrange(i as int, j as int));
        assert(records_view(records@) =~= before + found(o->Ok_0));
        if j == b.len() {
            assert(before + found(o->Ok_0) + Seq::empty() =~= before + found(o->Ok_0));
            return Ok(records);
        }
        proof {
            assert(rest.skip(j - i + 1) =~= b@.skip(j + 1));
            let tail = parse_doc(b@.skip(j + 1), (done + 2) as nat);
            if let Ok(v) = tail {
                assert(before + (found(o->Ok_0) + v) =~= before + found(o->Ok_0) + v);
            }
        }
        i = j + 1;
        done = done + 1;
    }
}

/// `first_index` finds `m` when no earlier position from `from` holds `c` and
/// `m` is the end or holds `c`.
pub proof fn lemma_first_index_at(s: Seq<u8>, c: u8, from: int, m: int)
    requires
        0 <= from <= m <= s.len(),
        forall|k: int| from <= k < m ==> s[k] != c,
        m == s.len() || s[m] == c,
    ensures
        first_index(s, c, from) == m,
    decreases m - from,
{
    if from < m {
        lemma_first_index_at(s, c, from + 1, m);
    }
}

impl IntelHexFile {
    /// Every record is well formed.
    pub open spec fn wf(&self) -> bool {
        forall|i: int| 0 <= i < self.records@.len() ==> record_wf(#[trigger] self.records@[i]@)
    }

    /// Parses a document held in memory. Lines are separated by newlines (`\n`)
    /// alone: a carriage return before a newline stays in its line, where it
    /// follows the checksum of a good record and is ignored, but a bad line's
    /// fault and length count it. Lines without a start marker are skipped; the
    /// first bad record fails the load.
    pub fn load(raw_data: &str) -> (r: Result<IntelHexFile, IntelHexError>)
        ensures
            match r {
                Ok(f) => {
                    &&& parse_doc(raw_data.spec_bytes(), 1) == Ok::<_, (nat, LineFault)>(f@)
                    &&& f.size == raw_data.spec_bytes().len()
                    &&& f.path is None
                    &&& f.wf()
                },
                Err(e) => {
                    &&& parse_doc(raw_data.spec_bytes(), 1) matches Err((n, k))
                    &&& e.err_type == IHexError::FileErrorLoad
                    &&& e.inner() matches Some(i) && is_line_failure(i, n, k)
                },
            },
    {
        let b = raw_data.as_bytes();
        match parse_records(b) {
            Ok(records) => Ok(IntelHexFile { path: None, size: b.len(), records }),
            Err(e) => {
                let outer = IHexError::FileErrorLoad.new("Error loading data");
                Err(outer.set_source(ErrorCause::Nested(Box::new(e))))
            },
        }
    }

    /// Parses a document read from a named source, and records that name.
    pub fn from_source(path: &str, raw_data: &str) -> (r: Result<IntelHexFile, IntelHexError>)
        ensures
            match r {
                Ok(f) => {
                    &&& parse_doc(raw_data.spec_bytes(), 1) == Ok::<_, (nat, LineFault)>(f@)
                    &&& f.size == raw_data.spec_bytes().len()
                    &&& f.path matches Some(p) && p@ == path@
                    &&& f.wf()
                },
                Err(e) => {
                    &&& parse_doc(raw_data.spec_bytes(), 1) matches Err((n, k))
                    &&& e.err_type == IHexError::FileErrorLoad
                    &&& e.inner() matches Some(i) && is_line_failure(i, n, k)
                },
            },
    {
        let mut f = IntelHexFile::load(raw_data)?;
        f.path = Some(path.to_owned());
        Ok(f)
    }

    /// The total serialized size of the records.
    pub fn binary_size(&self) -> (r: usize)
        requires
            doc_size(self@) <= usize::MAX,
        ensures
            r == doc_size(self@),
    {
        let mut total: usize = 0;
        let mut i: usize = 0;
        while i < self.records.len()
            invariant
                0 <= i <= self@.len(),
                self@.len() == self.records@.len(),
                doc_size(self@) <= usize::MAX,
                total == doc_size(self@.take(i as int)),
            decreases self@.len() - i,
        {
            proof {
                assert(self@.take(i + 1).drop_last() =~= self@.take(i as int));
                lemma_doc_size_prefix(self@, i + 1);
            }
            total = total + self.records[i].binary_size();
            i += 1;
        }
        assert(self@.take(i as int) =~= self@);
        total
    }

    /// The binary image: each record's bytes, in order.
    pub fn to_bytes(&self) -> (r: bytes::Bytes)
        ensures
            bytes_of(r) == doc_bytes(self@),
    {
        let mut v: Vec<u8> = Vec::new();
        let mut i: usize = 0;
        while i < self.records.len()
            invariant
                0 <= i <= self@.len(),
                self@.len() == self.records@.len(),
                v@ == doc_bytes(self@.take(i as int)),
            decreases self@.len() - i,
        {
            let mut rb = self.records[i].bytes_vec();
            v.append(&mut rb);
            proof {
                assert(self@.take(i + 1).drop_last() =~= self@.take(i as int));
            }
            i += 1;
        }
        assert(self@.take(i as int) =~= self@);
        bytes_from_vec(v)
    }

    /// The document as text: each record's line, joined by single newlines,
    /// with no newline at the end.
    pub fn to_hex_str(&self) -> (r: String)
        ensures
            r@ == ascii_chars(doc_text(self@)),
    {
        let mut s = String::new();
        let mut i: usize = 0;
        while i < self.records.len()
            invariant
                0 <= i <= self@.len(),
                self@.len() == self.records@.len(),
                s@ == ascii_chars(doc_text(self@.take(i as int))),
            decreases self@.len() - i,
        {
            let line = self.records[i].to_hex_str();
            let ghost prev = s@;
            proof {
                reveal_strlit("\n");
            }
            if i > 0 {
                s.append("\n");
            }
            s.append(line.as_str());
            proof {
                let pre = self@.take(i as int);
                assert(self@.take(i + 1) =~= pre.push(self@[i as int]));
                if i > 0 {
                    lemma_doc_text_push(pre, self@[i as int]);
                } else {
                    assert(pre.push(self@[i as int]) =~= seq![self@[i as int]]);
                }
                assert(s@ =~= ascii_chars(doc_text(self@.take(i + 1))));
            }
            i += 1;
        }
        assert(self@.take(i as int) =~= self@);
        s
    }

    /// The name of the source the document came from, or `(none)`.
    pub fn get_path(&self) -> (r: String)
        ensures
            match self.path {
                Some(p) => r@ == p@,
                None => r@ == "(none)"@,
            },
    {
        match &self.path {
            Some(p) => p.clone(),
            None => String::from_str("(none)"),
        }
    }
}

/// A prefix of the records never has a larger total size.
pub proof fn lemma_doc_size_prefix(rs: Seq<RecordModel>, i: int)
    requires
        0 <= i <= rs.len(),
    ensures
        doc_size(rs.take(i)) <= doc_size(rs),
    decreases rs.len() - i,
{
    if i < rs.len() {
        assert(rs.take(i + 1).drop_last() =~= rs.take(i));
        lemma_doc_size_prefix(rs, i + 1);
    } else {
        assert(rs.take(i) =~= rs);
    }
}

/// Appending a record to a non-empty document adds a newline and its line.
pub proof fn lemma_doc_text_push(rs: Seq<RecordModel>, r: RecordModel)
    requires
        rs.len() >= 1,
    ensures
        doc_text(rs.push(r)) == doc_text(rs) + seq![NEWLINE] + record_text(r),
    decreases rs.len(),
{
    if rs.len() == 1 {
        assert(rs.push(r).drop_first() =~= seq![r]);
        assert(rs.push(r)[0] == rs[0]);
        assert(doc_text(seq![r]) == record_text(r));
    } else {
        assert(rs.push(r)[0] == rs[0]);
        assert(rs.push(r).drop_first() =~= rs.drop_first().push(r));
        lemma_doc_text_push(rs.drop_first(), r);
        assert(doc_text(rs.push(r)) =~= doc_text(rs) + seq![NEWLINE] + record_text(r));
    }
}

/// The text of well-formed records parses back to those records.
pub proof fn lemma_parse_doc_text(rs: Seq<RecordModel>, n: nat)
    requires
        forall|i: int| 0 <= i < rs.len() ==> record_wf(#[trigger] rs[i]),
    ensures
        parse_doc(doc_text(rs), n) == Ok::<_, (nat, LineFault)>(rs),
    decreases rs.len(),
{
    let s = doc_text(rs);
    if rs.len() == 0 {
        assert(first_index(s, NEWLINE, 0) == 0);
        assert(s.take(0) =~= Seq::<u8>::empty());
        assert(first_index(s.take(0), RECORD_START, 0) == 0);
        assert(parse_line(s.take(0)) == Ok::<Option<RecordModel>, LineFault>(None)) by {
            reveal(parse_line);
        }
        assert(found(None) =~= rs);
    } else {
        let t = record_text(rs[0]);
        lemma_record_text_chars(rs[0]);
        lemma_parse_record_text(rs[0]);
        if rs.len() == 1 {
            lemma_first_index_at(s, NEWLINE, 0, s.len() as int);
            assert(s.take(s.len() as int) =~= t);
            assert(found(Some(rs[0])) =~= rs);
        } else {
            let rest = rs.drop_first();
            lemma_first_index_at(s, NEWLINE, 0, t.len() as int);
            assert(s.take(t.len() as int) =~= t);
            assert(s.skip(t.len() as int + 1) =~= doc_text(rest));
            lemma_parse_doc_text(rest, n + 1);
            assert(found(Some(rs[0])) + rest =~= rs);
        }
    }
}

/// Every byte of a document's text is ASCII.
pub proof fn lemma_doc_text_ascii(rs: Seq<RecordModel>)
    ensures
        forall|i: int| 0 <= i < doc_text(rs).len() ==> #[trigger] doc_text(rs)[i] < 0x80,
    decreases rs.len(),
{
    if rs.len() >= 1 {
        lemma_record_text_chars(rs[0]);
    }
    if rs.len() >= 2 {
        lemma_doc_text_ascii(rs.drop_first());
        let t = record_text(rs[0]);
        let s = doc_text(rs);
        assert forall|i: int| 0 <= i < s.len() implies #[trigger] s[i] < 0x80 by {
            if i > t.len() {
                assert(s[i] == doc_text(rs.drop_first())[i - t.len() - 1]);
            }
        }
    }
}

/// Loading the text that a well-formed document emits gives back the same
/// records, so emitting them again gives the same text.
pub proof fn lemma_round_trip(d: IntelHexFile)
    requires
        d.wf(),
    ensures
        is_ascii_chars(ascii_chars(doc_text(d@))),
        encode_utf8(ascii_chars(doc_text(d@))) == doc_text(d@),
        parse_doc(encode_utf8(ascii_chars(doc_text(d@))), 1) == Ok::<_, (nat, LineFault)>(d@),
{
    let rs = d@;
    assert forall|i: int| 0 <= i < rs.len() implies record_wf(#[trigger] rs[i]) by {
        assert(rs[i] == d.records@[i]@);
    }
    let t = doc_text(rs);
    let c = ascii_chars(t);
    lemma_doc_text_ascii(rs);
    assert forall|i: int| 0 <= i < c.len() implies '\0' <= #[trigger] c[i] <= '\u{7f}' by {
        assert(t[i] < 0x80);
    }
    is_ascii_chars_encode_utf8(c);
    assert(encode_utf8(c) =~= t);
    lemma_parse_doc_text(rs, 1);
}

/// A line with no start marker and no newline yields no record and no fault:
/// the document after it parses as if the line were not there.
pub proof fn lemma_unmarked_line(line: Seq<u8>, rest: Seq<u8>, n: nat)
    requires
        forall|i: int| 0 <= i < line.len() ==> #[trigger] line[i] != RECORD_START && line[i] != NEWLINE,
    ensures
        parse_line(line) == Ok::<Option<RecordModel>, LineFault>(None),
        parse_doc(line, n) == Ok::<_, (nat, LineFault)>(Seq::<RecordModel>::empty()),
        parse_doc(line + seq![NEWLINE] + rest, n) == parse_doc(rest, n + 1),
{
    reveal(parse_line);
    lemma_first_index_at(line, RECORD_START, 0, line.len() as int);
    lemma_first_index_at(line, NEWLINE, 0, line.len() as int);
    assert(line.take(line.len() as int) =~= line);
    let s = line + seq![NEWLINE] + rest;
    lemma_first_index_at(s, NEWLINE, 0, line.len() as int);
    assert(s.take(line.len() as int) =~= line);
    assert(s.skip(line.len() as int + 1) =~= rest);
    if let Ok(v) = parse_doc(rest, n + 1) {
        assert(found(None) + v =~= v);
    }
}

/// A load result with the line numbers of faults left out.
pub open spec fn without_line(r: Result<Seq<RecordModel>, (nat, LineFault)>) -> Result<
    Seq<RecordModel>,
    LineFault,
> {
    match r {
        Ok(v) => Ok(v),
        Err((_, k)) => Err(k),
    }
}

/// `first_index` stays within the sequence, skips only other values, and
/// stops at `c` unless it reaches the end.
pub proof fn lemma_first_index_bounds(s: Seq<u8>, c: u8, from: int)
    requires
        0 <= from <= s.len(),
    ensures
        from <= first_index(s, c, from) <= s.len(),
        forall|k: int| from <= k < first_index(s, c, from) ==> s[k] != c,
        first_index(s, c, from) < s.len() ==> s[first_index(s, c, from)] == c,
    decreases s.len() - from,
{
    if from < s.len() && s[from] != c {
        lemma_first_index_bounds(s, c, from + 1);
    }
}

/// Where line numbering starts changes only the numbers in faults.
pub proof fn lemma_line_numbers_only_label(s: Seq<u8>, n1: nat, n2: nat)
    ensures
        without_line(parse_doc(s, n1)) == without_line(parse_doc(s, n2)),
    decreases s.len(),
{
    let j = first_index(s, NEWLINE, 0);
    lemma_first_index_bounds(s, NEWLINE, 0);
    if 0 <= j < s.len() {
        lemma_line_numbers_only_label(s.skip(j + 1), n1 + 1, n2 + 1);
    }
}

/// An unmarked line inserted at the start of any line of a document changes
/// neither the records loaded nor the fault found; only later line numbers move.
pub proof fn lemma_unmarked_line_anywhere(a: Seq<u8>, m: Seq<u8>, b: Seq<u8>, n: nat)
    requires
        a.len() == 0 || a.last() == NEWLINE,
        forall|i: int| 0 <= i < m.len() ==> #[trigger] m[i] != RECORD_START && m[i] != NEWLINE,
    ensures
        without_line(parse_doc(a + m + seq![NEWLINE] + b, n)) == without_line(parse_doc(a + b, n)),
    decreases a.len(),
{
    let s1 = a + m + seq![NEWLINE] + b;
    let s2 = a + b;
    if a.len() == 0 {
        assert(s1 =~= m + seq![NEWLINE] + b);
        assert(s2 =~= b);
        lemma_unmarked_line(m, b, n);
        lemma_line_numbers_only_label(b, n + 1, n);
    } else {
        let j = first_index(a, NEWLINE, 0);
        lemma_first_index_bounds(a, NEWLINE, 0);
        assert(j < a.len());
        lemma_first_index_at(s1, NEWLINE, 0, j);
        lemma_first_index_at(s2, NEWLINE, 0, j);
        assert(s1.take(j) =~= a.take(j));
        assert(s2.take(j) =~= a.take(j));
        let a2 = a.skip(j + 1);
        assert(s1.skip(j + 1) =~= a2 + m + seq![NEWLINE] + b);
        assert(s2.skip(j + 1) =~= a2 + b);
        if a2.len() > 0 {
            assert(a2.last() == a.last());
        }
        lemma_unmarked_line_anywhere(a2, m, b, n + 1);
        let r1 = parse_doc(a2 + m + seq![NEWLINE] + b, n + 1);
        let r2 = parse_doc(a2 + b, n + 1);
        if let Ok(o) = parse_line(a.take(j)) {
            assert(without_line(prepend(found(o), r1)) == without_line(prepend(found(o), r2)));
        }
    }
}

} // verus!
