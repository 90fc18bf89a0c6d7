//! The layout of a checkpoint file: one record after the other, each a
//! name, a line feed, the count of numbers and the numbers themselves.
//!
//! The count takes eight bytes and every number four, least significant
//! byte first. A file in the legacy layout gives the count as two factors of
//! eight bytes each, rows and columns.

use vstd::prelude::*;
use crate::bytes::{le4, le4_value, le8, le8_value, lemma_le4_round_trip, lemma_le8_round_trip};
use crate::bytes::{push_le4, push_le8, read_le4, read_le8};
use crate::scalar::Scalar;

verus! {

/// The byte that ends a name.
pub const LINE_FEED: u8 = 10;

/// What can go wrong with a checkpoint.
#[derive(Clone, Copy, Debug, PartialEq, Eq)]
pub enum CheckpointError {
    /// A name holds a line feed, so it cannot be written.
    InvalidName,
    /// The bytes are not a sequence of records.
    Malformed,
    /// A file lists a name twice, or two states of a collection have one
    /// name.
    DuplicateName,
    /// The files do not list the same names.
    NameMismatch,
    /// A file lists a name that the collection does not have.
    UnknownName,
    /// A record does not have as many numbers as the buffer it is for.
    SizeMismatch,
    /// A buffer holds a batch, or the device handed back numbers that are
    /// not as many as the buffer has elements.
    DeviceRead,
}

/// One record of a checkpoint: a name and the numbers stored under it.
pub struct Record {
    pub name: Seq<u8>,
    pub values: Seq<Scalar>,
}

/// One record of a checkpoint: a name and the numbers stored under it.
#[derive(Clone, Debug, PartialEq, Eq)]
pub struct CheckpointRecord {
    pub name: Vec<u8>,
    pub values: Vec<Scalar>,
}

impl View for CheckpointRecord {
    type V = Record;

    open spec fn view(&self) -> Record {
        Record { name: self.name@, values: self.values@ }
    }
}

/// The records of a list, as a sequence.
pub open spec fn records_view(records: Seq<CheckpointRecord>) -> Seq<Record> {
    Seq::new(records.len(), |i: int| records[i]@)
}

/// Whether the name can be written: it holds no line feed.
pub open spec fn valid_name(name: Seq<u8>) -> bool {
    forall|i: int| 0 <= i < name.len() ==> name[i] != LINE_FEED
}

/// Whether the record can be written: its name can, and its count of
/// numbers fits in eight bytes.
pub open spec fn valid_record(record: Record) -> bool {
    valid_name(record.name) && record.values.len() <= u64::MAX
}

/// The numbers as bytes, four for each.
pub open spec fn encode_values(values: Seq<Scalar>) -> Seq<u8>
    decreases values.len(),
{
    if values.len() == 0 {
        Seq::empty()
    } else {
        encode_values(values.drop_last()) + le4(values.last().bits)
    }
}

/// The record as bytes: name, line feed, count, numbers.
pub open spec fn encode_record(record: Record) -> Seq<u8> {
    record.name + seq![LINE_FEED] + le8(record.values.len() as u64) + encode_values(
        record.values,
    )
}

/// The records as bytes, one after the other.
pub open spec fn encode_all(records: Seq<Record>) -> Seq<u8>
    decreases records.len(),
{
    if records.len() == 0 {
        Seq::empty()
    } else {
        encode_record(records[0]) + encode_all(records.drop_first())
    }
}

/// The index of the first line feed at or after `from`, or the length of
/// the bytes if there is none.
pub open spec fn line_end(bytes: Seq<u8>, from: int) -> int
    decreases bytes.len() - from,
{
    if from < 0 || from >= bytes.len() {
        bytes.len() as int
    } else if bytes[from] == LINE_FEED {
        from
    } else {
        line_end(bytes, from + 1)
    }
}

/// The `count` numbers whose bytes start at `at`.
pub open spec fn decode_values(bytes: Seq<u8>, at: int, count: int) -> Seq<Scalar> {
    Seq::new(count as nat, |k: int| Scalar { bits: le4_value(bytes, at + 4 * k) })
}

/// The bytes that the count of a record takes.
pub open spec fn header_len(legacy: bool) -> int {
    if legacy {
        16
    } else {
        8
    }
}

/// The count of numbers that the header at `at` announces.
pub open spec fn announced(bytes: Seq<u8>, at: int, legacy: bool) -> int {
    if legacy {
        le8_value(bytes, at) * le8_value(bytes, at + 8)
    } else {
        le8_value(bytes, at) as int
    }
}

/// The record that starts at `at` and the index behind it, if the bytes
/// from `at` on begin with a whole record.
pub open spec fn parse_record(bytes: Seq<u8>, at: int, legacy: bool) -> Option<(Record, int)> {
    let end = line_end(bytes, at);
    let start = end + 1 + header_len(legacy);
    if start > bytes.len() {
        None
    } else {
        let count = announced(bytes, end + 1, legacy);
        if start + 4 * count > bytes.len() {
            None
        } else {
            Some(
                (
                    Record {
                        name: bytes.subrange(at, end),
                        values: decode_values(bytes, start, count),
                    },
                    start + 4 * count,
                ),
            )
        }
    }
}

/// The records that the bytes from `at` on are made of, if they are made
/// of whole records.
pub open spec fn parse_all(bytes: Seq<u8>, at: int, legacy: bool) -> Option<Seq<Record>>
    decreases bytes.len() - at,
{
    if at < 0 || at >= bytes.len() {
        Some(Seq::empty())
    } else {
        match parse_record(bytes, at, legacy) {
            None => None,
            Some((record, next)) => if next <= at {
                None
            } else {
                match parse_all(bytes, next, legacy) {
                    None => None,
                    Some(rest) => Some(seq![record] + rest),
                }
            },
        }
    }
}

/// The line feed behind a name that holds none is found.
pub proof fn lemma_line_end(bytes: Seq<u8>, at: int, end: int)
    requires
        0 <= at <= end < bytes.len(),
        bytes[end] == LINE_FEED,
        forall|i: int| at <= i < end ==> bytes[i] != LINE_FEED,
    ensures
        line_end(bytes, at) == end,
    decreases end - at,
{
    if at < end {
        lemma_line_end(bytes, at + 1, end);
    }
}

/// A line end lies between the start and the end of the bytes, and no line
/// feed stands before it.
pub proof fn lemma_line_end_bounds(bytes: Seq<u8>, at: int)
    requires
        0 <= at <= bytes.len(),
    ensures
        at <= line_end(bytes, at) <= bytes.len(),
        line_end(bytes, at) < bytes.len() ==> bytes[line_end(bytes, at)] == LINE_FEED,
        forall|i: int| at <= i < line_end(bytes, at) ==> bytes[i] != LINE_FEED,
    decreases bytes.len() - at,
{
    if at < bytes.len() && bytes[at] != LINE_FEED {
        lemma_line_end_bounds(bytes, at + 1);
    }
}

/// Numbers take four bytes each.
pub proof fn lemma_encode_values_len(values: Seq<Scalar>)
    ensures
        encode_values(values).len() == 4 * values.len(),
    decreases values.len(),
{
    if values.len() > 0 {
        lemma_encode_values_len(values.drop_last());
    }
}

/// The numbers that were written are read back, wherever they stand.
pub proof fn lemma_values_round_trip(values: Seq<Scalar>, bytes: Seq<u8>, at: int)
    requires
        0 <= at,
        at + 4 * values.len() <= bytes.len(),
        bytes.subrange(at, at + 4 * values.len()) == encode_values(values),
    ensures
        decode_values(bytes, at, values.len() as int) == values,
    decreases values.len(),
{
    let n = values.len() as int;
    if n > 0 {
        let front = values.drop_last();
        lemma_encode_values_len(front);
        let all = bytes.subrange(at, at + 4 * n);
        assert(bytes.subrange(at, at + 4 * (n - 1)) =~= all.subrange(0, 4 * (n - 1)));
        assert(all.subrange(0, 4 * (n - 1)) =~= encode_values(front));
        lemma_values_round_trip(front, bytes, at);
        assert(bytes.subrange(at + 4 * (n - 1), at + 4 * n) =~= all.subrange(4 * (n - 1), 4 * n));
        assert(all.subrange(4 * (n - 1), 4 * n) =~= le4(values.last().bits));
        lemma_le4_round_trip(values.last().bits, bytes, at + 4 * (n - 1));
        assert forall|k: int| 0 <= k < n implies decode_values(bytes, at, n)[k] == values[k] by {
            if k < n - 1 {
                assert(decode_values(bytes, at, n - 1)[k] == front[k]);
            }
        }
    }
    assert(decode_values(bytes, at, n) =~= values);
}

/// A record that was written is read back, wherever it stands.
pub proof fn lemma_record_round_trip(record: Record, bytes: Seq<u8>, at: int)
    requires
        valid_record(record),
        0 <= at,
        at + encode_record(record).len() <= bytes.len(),
        bytes.subrange(at, at + encode_record(record).len()) == encode_record(record),
    ensures
        parse_record(bytes, at, false) == Some((record, at + encode_record(record).len())),
{
    let enc = encode_record(record);
    let n = record.name.len() as int;
    let count = record.values.len() as int;
    lemma_encode_values_len(record.values);
    let part = bytes.subrange(at, at + enc.len());
    assert(bytes.subrange(at, at + n) =~= part.subrange(0, n));
    assert(part.subrange(0, n) =~= record.name);
    assert(bytes[at + n] == part[n]);
    assert(part[n] == LINE_FEED);
    assert forall|i: int| at <= i < at + n implies bytes[i] != LINE_FEED by {
        assert(bytes[i] == part[i - at]);
        assert(part[i - at] == record.name[i - at]);
    }
    lemma_line_end(bytes, at, at + n);
    assert(bytes.subrange(at + n + 1, at + n + 9) =~= part.subrange(n + 1, n + 9));
    assert(part.subrange(n + 1, n + 9) =~= le8(count as u64));
    lemma_le8_round_trip(count as u64, bytes, at + n + 1);
    assert(bytes.subrange(at + n + 9, at + n + 9 + 4 * count) =~= part.subrange(
        n + 9,
        n + 9 + 4 * count,
    ));
    assert(part.subrange(n + 9, n + 9 + 4 * count) =~= encode_values(record.values));
    lemma_values_round_trip(record.values, bytes, at + n + 9);
}

/// Writing records and reading the bytes back gives the records again,
/// whatever stands before them.
pub proof fn lemma_round_trip_from(records: Seq<Record>, bytes: Seq<u8>, at: int)
    requires
        forall|i: int| 0 <= i < records.len() ==> valid_record(#[trigger] records[i]),
        0 <= at,
        at + encode_all(records).len() == bytes.len(),
        bytes.subrange(at, bytes.len() as int) == encode_all(records),
    ensures
        parse_all(bytes, at, false) == Some(records),
    decreases records.len(),
{
    if records.len() == 0 {
    } else {
        let first = records[0];
        let rest = records.drop_first();
        let enc = encode_record(first);
        let tail = bytes.subrange(at, bytes.len() as int);
        assert(bytes.subrange(at, at + enc.len()) =~= tail.subrange(0, enc.len() as int));
        assert(tail.subrange(0, enc.len() as int) =~= enc);
        lemma_record_round_trip(first, bytes, at);
        assert(bytes.subrange(at + enc.len(), bytes.len() as int) =~= tail.subrange(
            enc.len() as int,
            tail.len() as int,
        ));
        assert(tail.subrange(enc.len() as int, tail.len() as int) =~= encode_all(rest));
        assert forall|i: int| 0 <= i < rest.len() implies valid_record(#[trigger] rest[i]) by {
            assert(rest[i] == records[i + 1]);
        }
        lemma_round_trip_from(rest, bytes, at + enc.len());
        assert(seq![first] + rest =~= records);
    }
}

/// Writing records and reading the bytes back gives the records again.
pub proof fn lemma_round_trip(records: Seq<Record>)
    requires
        forall|i: int| 0 <= i < records.len() ==> valid_record(#[trigger] records[i]),
    ensures
        parse_all(encode_all(records), 0, false) == Some(records),
{
    let bytes = encode_all(records);
    assert(bytes.subrange(0, bytes.len() as int) =~= bytes);
    lemma_round_trip_from(records, bytes, 0);
}

/// Joining byte sequences does not depend on the grouping.
proof fn lemma_join(a: Seq<u8>, b: Seq<u8>, c: Seq<u8>)
    ensures
        (a + b) + c == a + (b + c),
        Seq::<u8>::empty() + a == a,
        a + Seq::<u8>::empty() == a,
{
    assert((a + b) + c =~= a + (b + c));
    assert(Seq::<u8>::empty() + a =~= a);
    assert(a + Seq::<u8>::empty() =~= a);
}

/// Records written one after the other are the records written at once.
pub proof fn lemma_encode_push(records: Seq<Record>, record: Record)
    ensures
        encode_all(records.push(record)) == encode_all(records) + encode_record(record),
    decreases records.len(),
{
    let added = encode_record(record);
    let longer = records.push(record);
    if records.len() == 0 {
        assert(longer.drop_first() =~= Seq::<Record>::empty());
        assert(longer[0] == record);
        assert(encode_all(longer.drop_first()) == Seq::<u8>::empty());
        assert(encode_all(longer) == added + Seq::<u8>::empty());
        assert(encode_all(records) == Seq::<u8>::empty());
        lemma_join(added, added, added);
    } else {
        let first = encode_record(records[0]);
        let rest = records.drop_first();
        assert(longer.drop_first() =~= rest.push(record));
        assert(longer[0] == records[0]);
        lemma_encode_push(rest, record);
        assert(encode_all(longer) == first + encode_all(rest.push(record)));
        assert(encode_all(records) == first + encode_all(rest));
        lemma_join(first, encode_all(rest), added);
    }
}

/// Whether the name holds no line feed.
pub fn is_valid_name(name: &[u8]) -> (b: bool)
    ensures
        b == valid_name(name@),
{
    let mut i: usize = 0;
    while i < name.len()
        invariant
            i <= name.len(),
            forall|k: int| 0 <= k < i ==> name@[k] != LINE_FEED,
        decreases name.len() - i,
    {
        if name[i] == LINE_FEED {
            return false;
        }
        i += 1;
    }
    true
}

/// Appends one record to the bytes of a file. A name with a line feed is
/// refused, and nothing is appended.
pub fn write_record(out: &mut Vec<u8>, name: &[u8], values: &Vec<Scalar>) -> (r: Result<
    (),
    CheckpointError,
>)
    ensures
        valid_name(name@) ==> r is Ok && final(out)@ == old(out)@ + encode_record(
            Record { name: name@, values: values@ },
        ),
        !valid_name(name@) ==> r == Err::<(), CheckpointError>(CheckpointError::InvalidName)
            && final(out)@ == old(out)@,
        valid_name(name@) ==> valid_record(Record { name: name@, values: values@ }),
{
    if !is_valid_name(name) {
        return Err(CheckpointError::InvalidName);
    }
    let mut i: usize = 0;
    while i < name.len()
        invariant
            i <= name.len(),
            out@ == old(out)@ + name@.subrange(0, i as int),
        decreases name.len() - i,
    {
        out.push(name[i]);
        assert(out@ =~= old(out)@ + name@.subrange(0, i + 1));
        i += 1;
    }
    out.push(LINE_FEED);
    push_le8(out, values.len() as u64);
    let ghost head = out@;
    assert(head =~= old(out)@ + name@ + seq![LINE_FEED] + le8(values@.len() as u64)) by {
        assert(name@.subrange(0, name@.len() as int) =~= name@);
    }
    let mut k: usize = 0;
    while k < values.len()
        invariant
            k <= values.len(),
            out@ == head + encode_values(values@.subrange(0, k as int)),
        decreases values.len() - k,
    {
        let ghost done = values@.subrange(0, k as int);
        push_le4(out, values[k].bits);
        assert(values@.subrange(0, k + 1).drop_last() =~= done);
        assert(out@ =~= head + encode_values(values@.subrange(0, k + 1)));
        k += 1;
    }
    assert(values@.subrange(0, values@.len() as int) =~= values@);
    assert(out@ =~= old(out)@ + encode_record(Record { name: name@, values: values@ }));
    Ok(())
}

/// The bytes of a file with the given records. A name with a line feed is
/// refused.
pub fn encode_checkpoint(records: &Vec<CheckpointRecord>) -> (r: Result<Vec<u8>, CheckpointError>)
    ensures
        match r {
            Ok(bytes) => {
                &&& bytes@ == encode_all(records_view(records@))
                &&& forall|i: int|
                    0 <= i < records@.len() ==> valid_record(#[trigger] records_view(records@)[i])
            },
            Err(e) => e == CheckpointError::InvalidName && exists|i: int|
                0 <= i < records@.len() && !valid_name(#[trigger] records@[i].name@),
        },
{
    let mut out: Vec<u8> = Vec::new();
    let ghost all = records_view(records@);
    let mut i: usize = 0;
    while i < records.len()
        invariant
            i <= records.len(),
            all == records_view(records@),
            out@ == encode_all(all.subrange(0, i as int)),
            forall|k: int| 0 <= k < i ==> valid_record(#[trigger] all[k]),
        decreases records.len() - i,
    {
        let ghost done = all.subrange(0, i as int);
        match write_record(&mut out, records[i].name.as_slice(), &records[i].values) {
            Ok(()) => {},
            Err(e) => {
                return Err(e);
            },
        }
        proof {
            lemma_encode_push(done, all[i as int]);
            assert(all.subrange(0, i + 1) =~= done.push(all[i as int]));
        }
        i += 1;
    }
    assert(all.subrange(0, all.len() as int) =~= all);
    Ok(out)
}

/// The records that the bytes of a file are made of. Bytes that are not
/// made of whole records are refused.
pub fn parse_checkpoint(bytes: &[u8], legacy: bool) -> (r: Result<
    Vec<CheckpointRecord>,
    CheckpointError,
>)
    ensures
        match r {
            Ok(records) => parse_all(bytes@, 0, legacy) == Some(records_view(records@)),
            Err(e) => e == CheckpointError::Malformed && parse_all(bytes@, 0, legacy) is None,
        },
{
    let mut records: Vec<CheckpointRecord> = Vec::new();
    let mut at: usize = 0;
    let header: usize = if legacy {
        16
    } else {
        8
    };
    assert(records_view(records@) =~= Seq::<Record>::empty());
    while at < bytes.len()
        invariant
            at <= bytes.len(),
            header == header_len(legacy),
            parse_all(bytes@, 0, legacy) == (match parse_all(bytes@, at as int, legacy) {
                Some(rest) => Some(records_view(records@) + rest),
                None => None,
            }),
        decreases bytes.len() - at,
    {
        let ghost done = records_view(records@);
        let mut end: usize = at;
        while end < bytes.len() && bytes[end] != LINE_FEED
            invariant
                at <= end <= bytes.len(),
                line_end(bytes@, at as int) == line_end(bytes@, end as int),
            decreases bytes.len() - end,
        {
            end += 1;
        }
        proof {
            lemma_line_end_bounds(bytes@, at as int);
        }
        assert(end == line_end(bytes@, at as int));
        // what is left behind the name must hold the header
        if bytes.len() - end < 1 + header {
            return Err(CheckpointError::Malformed);
        }
        let start = end + 1 + header;
        let left = bytes.len() - start;
        let count: usize = if legacy {
            let rows = read_le8(bytes, end + 1);
            let cols = read_le8(bytes, end + 9);
            match rows.checked_mul(cols) {
                Some(n) => {
                    if n > (left / 4) as u64 {
                        return Err(CheckpointError::Malformed);
                    }
                    n as usize
                },
                None => {
                    return Err(CheckpointError::Malformed);
                },
            }
        } else {
            let n = read_le8(bytes, end + 1);
            if n > (left / 4) as u64 {
                return Err(CheckpointError::Malformed);
            }
            n as usize
        };
        assert(count == announced(bytes@, end + 1, legacy));
        let mut name: Vec<u8> = Vec::new();
        let mut i: usize = at;
        while i < end
            invariant
                at <= i <= end <= bytes.len(),
                name@ == bytes@.subrange(at as int, i as int),
            decreases end - i,
        {
            name.push(bytes[i]);
            assert(name@ =~= bytes@.subrange(at as int, i + 1));
            i += 1;
        }
        let mut values: Vec<Scalar> = Vec::new();
        let mut k: usize = 0;
        while k < count
            invariant
                k <= count,
                start + 4 * count <= bytes.len(),
                values@ == decode_values(bytes@, start as int, k as int),
            decreases count - k,
        {
            values.push(Scalar::from_bits(read_le4(bytes, start + 4 * k)));
            assert(values@ =~= decode_values(bytes@, start as int, k + 1));
            k += 1;
        }
        let record = CheckpointRecord { name, values };
        assert(parse_record(bytes@, at as int, legacy) == Some((record@, start + 4 * count)));
        records.push(record);
        proof {
            assert(records_view(records@) =~= done.push(record@));
            let next = parse_all(bytes@, start + 4 * count, legacy);
            if next is Some {
                assert(done + (seq![record@] + next->Some_0) =~= done.push(record@)
                    + next->Some_0);
            }
        }
        at = start + 4 * count;
    }
    assert(records_view(records@) + Seq::<Record>::empty() =~= records_view(records@));
    Ok(records)
}

} // verus!
