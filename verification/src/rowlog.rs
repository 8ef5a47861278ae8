//! The row log: a table's rows as a run of frames, each
//!
//! ```text
//! 0xAB  size (eight bytes, little-endian)  0xCD  payload (size bytes)
//! ```
//!
//! where the payload holds the row's fields one after the other, in the
//! order of the table's columns and with nothing between them.

use crate::codec::{
    decode_value, encode_value, get_le, le_bytes, le_value, lemma_decode_encode,
    lemma_le_bytes_len, lemma_le_round_trip, lemma_radix_pow_values, put_le, put_value,
    read_value, storable,
};
use crate::types::{
    rows_view, ColumnSpec, ErrorKind, Row, RowSpec, TableDefinition, Value, ValueSpec,
};
use vstd::prelude::*;

verus! {

/// The byte that opens a frame.
pub const START_MARKER: u8 = 0xAB;

/// The byte between a frame's size and its payload.
pub const END_MARKER: u8 = 0xCD;

/// The count of bytes in a frame before its payload.
pub const HEADER_LEN: usize = 10;

/// The frame that holds `payload`.
pub open spec fn frame(payload: Seq<u8>) -> Seq<u8> {
    seq![START_MARKER] + le_bytes(payload.len(), 8) + seq![END_MARKER] + payload
}

/// The frames of `payloads`, one after the other.
pub open spec fn frames(payloads: Seq<Seq<u8>>) -> Seq<u8>
    decreases payloads.len(),
{
    if payloads.len() == 0 {
        Seq::empty()
    } else {
        frame(payloads[0]) + frames(payloads.skip(1))
    }
}

/// The parts, one after the other.
pub open spec fn concat(parts: Seq<Seq<u8>>) -> Seq<u8>
    decreases parts.len(),
{
    if parts.len() == 0 {
        Seq::empty()
    } else {
        concat(parts.drop_last()) + parts.last()
    }
}

/// A frame is its ten header bytes and then the payload: the opening
/// marker, the payload's length, the closing marker.
pub proof fn lemma_frame_shape(payload: Seq<u8>)
    requires
        payload.len() <= u64::MAX,
    ensures
        frame(payload).len() == HEADER_LEN + payload.len(),
        frame(payload)[0] == START_MARKER,
        le_value(frame(payload).subrange(1, 9)) == payload.len(),
        frame(payload)[9] == END_MARKER,
        frame(payload).skip(HEADER_LEN as int) == payload,
{
    let f = frame(payload);
    lemma_le_bytes_len(payload.len(), 8);
    lemma_le_round_trip(payload.len(), 8);
    lemma_radix_pow_values();
    assert(f.subrange(1, 9) =~= le_bytes(payload.len(), 8));
    assert(f.skip(HEADER_LEN as int) =~= payload);
}

/// Adding a payload to the list adds its frame to the end of the log.
pub proof fn lemma_frames_push(payloads: Seq<Seq<u8>>, payload: Seq<u8>)
    ensures
        frames(payloads.push(payload)) == frames(payloads) + frame(payload),
    decreases payloads.len(),
{
    let all = payloads.push(payload);
    if payloads.len() == 0 {
        assert(all.skip(1) =~= Seq::<Seq<u8>>::empty());
        assert(frames(all.skip(1)) =~= Seq::<u8>::empty());
        assert(all[0] == payload);
        assert(frames(all) =~= frame(payload));
        assert(frames(payloads) + frame(payload) =~= frame(payload));
    } else {
        lemma_frames_push(payloads.skip(1), payload);
        assert(all.skip(1) =~= payloads.skip(1).push(payload));
        assert(frames(all) =~= frames(payloads) + frame(payload));
    }
}

/// Appends the frame of `payload` to `log`.
pub fn append_frame(log: &mut Vec<u8>, payload: &Vec<u8>)
    ensures
        final(log)@ == old(log)@ + frame(payload@),
{
    log.push(START_MARKER);
    put_le(log, payload.len() as u64, 8);
    log.push(END_MARKER);
    let ghost head = log@;
    let mut i: usize = 0;
    while i < payload.len()
        invariant
            i <= payload.len(),
            log@ == head + payload@.take(i as int),
        decreases payload.len() - i,
    {
        log.push(payload[i]);
        assert(head + payload@.take(i + 1) =~= (head + payload@.take(i as int)).push(
            payload@[i as int],
        ));
        i = i + 1;
    }
    assert(payload@.take(payload.len() as int) =~= payload@);
    assert(log@ =~= old(log)@ + frame(payload@));
}

/// The frame that holds `payload`: the byte `0xAB`, the payload's length
/// in eight bytes, the byte `0xCD`, and the payload.
pub fn frame_payload(payload: &Vec<u8>) -> (out: Vec<u8>)
    ensures
        out@ == frame(payload@),
        out@.len() == HEADER_LEN + payload@.len(),
        out@[0] == 0xAB,
        le_value(out@.subrange(1, 9)) == payload@.len(),
        out@[9] == 0xCD,
        out@.skip(10) == payload@,
{
    let mut out: Vec<u8> = Vec::new();
    append_frame(&mut out, payload);
    let n: usize = payload.len();
    proof {
        assert(out@ =~= frame(payload@));
        assert(payload@.len() == n);
        lemma_frame_shape(payload@);
    }
    out
}

/// The views of the parts of a row's data.
pub open spec fn parts_view(row: Seq<Vec<u8>>) -> Seq<Seq<u8>> {
    row.map_values(|part: Vec<u8>| part@)
}

/// The payloads of rows that are given in parts.
pub open spec fn payloads_of(data: Seq<Vec<Vec<u8>>>) -> Seq<Seq<u8>> {
    data.map_values(|row: Vec<Vec<u8>>| concat(parts_view(row@)))
}

/// The log that holds the given rows, each the concatenation of its
/// parts, in the given order.
pub fn frame_rows(data: &Vec<Vec<Vec<u8>>>) -> (log: Vec<u8>)
    ensures
        log@ == frames(payloads_of(data@)),
{
    let mut log: Vec<u8> = Vec::new();
    let mut i: usize = 0;
    assert(payloads_of(data@).take(0) =~= Seq::<Seq<u8>>::empty());
    while i < data.len()
        invariant
            i <= data.len(),
            log@ == frames(payloads_of(data@).take(i as int)),
        decreases data.len() - i,
    {
        let row = &data[i];
        let mut payload: Vec<u8> = Vec::new();
        let mut j: usize = 0;
        assert(parts_view(row@).take(0) =~= Seq::<Seq<u8>>::empty());
        while j < row.len()
            invariant
                j <= row.len(),
                payload@ == concat(parts_view(row@).take(j as int)),
            decreases row.len() - j,
        {
            let part = &row[j];
            let ghost before = payload@;
            let mut k: usize = 0;
            while k < part.len()
                invariant
                    k <= part.len(),
                    payload@ == before + part@.take(k as int),
                decreases part.len() - k,
            {
                payload.push(part[k]);
                assert(before + part@.take(k + 1) =~= (before + part@.take(k as int)).push(
                    part@[k as int],
                ));
                k = k + 1;
            }
            proof {
                assert(part@.take(part.len() as int) =~= part@);
                let next = parts_view(row@).take(j + 1);
                assert(next.drop_last() =~= parts_view(row@).take(j as int));
                assert(next.last() == part@);
            }
            j = j + 1;
        }
        proof {
            assert(parts_view(row@).take(row.len() as int) =~= parts_view(row@));
            let done = payloads_of(data@).take(i as int);
            lemma_frames_push(done, payload@);
            assert(payloads_of(data@).take(i + 1) =~= done.push(payload@));
        }
        append_frame(&mut log, &payload);
        i = i + 1;
    }
    assert(payloads_of(data@).take(data.len() as int) =~= payloads_of(data@));
    log
}

/// The fields that `payload` holds for `columns`, read one after the
/// other from its start; `None` where some field cannot be read, or where
/// bytes are left after the last field.
pub open spec fn decode_fields(payload: Seq<u8>, columns: Seq<ColumnSpec>) -> Option<RowSpec>
    decreases columns.len(),
{
    if columns.len() == 0 {
        if payload.len() == 0 {
            Some(Seq::empty())
        } else {
            None
        }
    } else {
        match decode_value(payload, columns[0].data_type) {
            None => None,
            Some((v, n)) => if 0 <= n <= payload.len() {
                match decode_fields(payload.skip(n), columns.skip(1)) {
                    None => None,
                    Some(rest) => Some(seq![(columns[0].name, v)] + rest),
                }
            } else {
                None
            },
        }
    }
}

/// `fields` put in front of a row that may be missing.
pub open spec fn with_fields(fields: RowSpec, rest: Option<RowSpec>) -> Option<RowSpec> {
    match rest {
        Some(r) => Some(fields + r),
        None => None,
    }
}

/// Reads the row that `payload` holds for the columns of `table`, or
/// `InvalidData` where the payload is not the fields of such a row.
pub fn decode_row(payload: &Vec<u8>, table: &TableDefinition) -> (r: Result<Row, ErrorKind>)
    ensures
        match decode_fields(payload@, table@.columns) {
            Some(row) => r matches Ok(x) && x@ == row,
            None => r == Err::<Row, ErrorKind>(ErrorKind::InvalidData),
        },
{
    let ghost columns = table@.columns;
    let mut fields: Vec<(String, Value)> = Vec::new();
    let mut at: usize = 0;
    let mut j: usize = 0;
    proof {
        assert(payload@.skip(0) =~= payload@);
        assert(columns.skip(0) =~= columns);
        let whole = decode_fields(payload@, columns);
        assert(with_fields(Seq::empty(), whole) == whole) by {
            if whole is Some {
                assert(Seq::<(Seq<char>, ValueSpec)>::empty() + whole->0 =~= whole->0);
            }
        }
    }
    while j < table.columns.len()
        invariant
            j <= table.columns.len(),
            at <= payload.len(),
            columns == table@.columns,
            decode_fields(payload@, columns) == with_fields(
                fields@.map_values(|f: (String, Value)| (f.0@, f.1@)),
                decode_fields(payload@.skip(at as int), columns.skip(j as int)),
            ),
        decreases table.columns.len() - j,
    {
        let ghost done = fields@.map_values(|f: (String, Value)| (f.0@, f.1@));
        let ghost tail = payload@.skip(at as int);
        let ghost left = columns.skip(j as int);
        let column = &table.columns[j];
        assert(left[0] == columns[j as int]);
        assert(columns[j as int] == table.columns@[j as int]@);
        match read_value(payload, at, column.data_type) {
            Err(_) => {
                return Err(ErrorKind::InvalidData);
            },
            Ok((value, next)) => {
                proof {
                    let n = next - at;
                    assert(tail.skip(n) =~= payload@.skip(next as int));
                    assert(left.skip(1) =~= columns.skip(j + 1));
                    let rest = decode_fields(payload@.skip(next as int), columns.skip(j + 1));
                    let field = (column.name@, value@);
                    assert(decode_fields(tail, left) == with_fields(seq![field], rest)) by {
                        if rest is Some {
                        }
                    }
                    if rest is Some {
                        assert(done + (seq![field] + rest->0) =~= done.push(field) + rest->0);
                    }
                }
                fields.push((column.name.clone(), value));
                assert(fields@.map_values(|f: (String, Value)| (f.0@, f.1@)) =~= done.push(
                    (column.name@, value@),
                ));
                at = next;
                j = j + 1;
            },
        }
    }
    assert(columns.skip(j as int).len() == 0);
    if at != payload.len() {
        return Err(ErrorKind::InvalidData);
    }
    proof {
        let done = fields@.map_values(|f: (String, Value)| (f.0@, f.1@));
        assert(done + Seq::<(Seq<char>, ValueSpec)>::empty() =~= done);
    }
    Ok(Row { fields })
}

/// What scanning `bytes` as a log of `columns` gives: the rows of its
/// frames in order, or the first failure. The log ends cleanly only where
/// a frame would begin. A byte other than the markers where a marker is
/// due, and a payload whose fields cannot be read, are `InvalidData`; an
/// end of the bytes inside a frame is `UnexpectedEof`.
pub open spec fn scan(bytes: Seq<u8>, columns: Seq<ColumnSpec>) -> Result<Seq<RowSpec>, ErrorKind>
    decreases bytes.len(),
{
    if bytes.len() == 0 {
        Ok(Seq::empty())
    } else if bytes[0] != START_MARKER {
        Err(ErrorKind::InvalidData)
    } else if bytes.len() < 10 {
        Err(ErrorKind::UnexpectedEof)
    } else if bytes[9] != END_MARKER {
        Err(ErrorKind::InvalidData)
    } else {
        let size = le_value(bytes.subrange(1, 9)) as int;
        if bytes.len() - 10 < size {
            Err(ErrorKind::UnexpectedEof)
        } else {
            match decode_fields(bytes.subrange(10, 10 + size), columns) {
                None => Err(ErrorKind::InvalidData),
                Some(row) => match scan(bytes.skip(10 + size), columns) {
                    Ok(rest) => Ok(seq![row] + rest),
                    Err(e) => Err(e),
                },
            }
        }
    }
}

/// `rows` put in front of the outcome of a scan.
pub open spec fn with_rows(rows: Seq<RowSpec>, rest: Result<Seq<RowSpec>, ErrorKind>) -> Result<
    Seq<RowSpec>,
    ErrorKind,
> {
    match rest {
        Ok(r) => Ok(rows + r),
        Err(e) => Err(e),
    }
}

/// Scans `bytes` as the log of `table`: the rows in the order of their
/// frames, or the first failure, as [`scan`] says.
pub fn scan_rows(bytes: &Vec<u8>, table: &TableDefinition) -> (r: Result<Vec<Row>, ErrorKind>)
    ensures
        match scan(bytes@, table@.columns) {
            Ok(rows) => r matches Ok(v) && rows_view(v@) == rows,
            Err(e) => r == Err::<Vec<Row>, ErrorKind>(e),
        },
{
    let ghost columns = table@.columns;
    let mut rows: Vec<Row> = Vec::new();
    let mut pos: usize = 0;
    proof {
        assert(bytes@.skip(0) =~= bytes@);
        let whole = scan(bytes@, columns);
        if whole is Ok {
            assert(Seq::<RowSpec>::empty() + whole->Ok_0 =~= whole->Ok_0);
        }
    }
    while pos < bytes.len()
        invariant
            pos <= bytes.len(),
            columns == table@.columns,
            scan(bytes@, columns) == with_rows(
                rows_view(rows@),
                scan(bytes@.skip(pos as int), columns),
            ),
        decreases bytes.len() - pos,
    {
        let ghost done = rows_view(rows@);
        let ghost tail = bytes@.skip(pos as int);
        let left: usize = bytes.len() - pos;
        if bytes[pos] != START_MARKER {
            return Err(ErrorKind::InvalidData);
        }
        if left < 10 {
            return Err(ErrorKind::UnexpectedEof);
        }
        if bytes[pos + 9] != END_MARKER {
            return Err(ErrorKind::InvalidData);
        }
        assert(tail.subrange(1, 9) =~= bytes@.subrange(pos + 1, pos + 1 + 8));
        let size = get_le(bytes, pos + 1, 8);
        if size > (left - 10) as u64 {
            return Err(ErrorKind::UnexpectedEof);
        }
        let len: usize = size as usize;
        let start: usize = pos + 10;
        let mut payload: Vec<u8> = Vec::new();
        let mut i: usize = 0;
        while i < len
            invariant
                i <= len,
                start + len <= bytes.len(),
                payload@ == bytes@.subrange(start as int, start + i),
            decreases len - i,
        {
            payload.push(bytes[start + i]);
            i = i + 1;
        }
        assert(payload@ =~= tail.subrange(10, 10 + len));
        match decode_row(&payload, table) {
            Err(_) => {
                return Err(ErrorKind::InvalidData);
            },
            Ok(row) => {
                proof {
                    assert(tail.skip(10 + len) =~= bytes@.skip(start + len));
                    let rest = scan(bytes@.skip(start + len), columns);
                    assert(scan(tail, columns) == with_rows(seq![row@], rest));
                    if rest is Ok {
                        assert(done + (seq![row@] + rest->Ok_0) =~= done.push(row@) + rest->Ok_0);
                    }
                }
                rows.push(row);
                assert(rows_view(rows@) =~= done.push(row@));
                pos = start + len;
            },
        }
    }
    proof {
        assert(rows_view(rows@) + Seq::<RowSpec>::empty() =~= rows_view(rows@));
    }
    Ok(rows)
}

/// The payload that holds the fields of `row`.
pub open spec fn encode_fields(row: RowSpec) -> Seq<u8>
    decreases row.len(),
{
    if row.len() == 0 {
        Seq::empty()
    } else {
        encode_value(row[0].1) + encode_fields(row.skip(1))
    }
}

/// The log that holds `rows`, in order.
pub open spec fn log_of(rows: Seq<RowSpec>) -> Seq<u8> {
    frames(rows.map_values(|row: RowSpec| encode_fields(row)))
}

/// Whether `row` is a row of a table with these columns: one field for
/// each column, in order, under the column's name and of the column's
/// type, and small enough to be stored.
pub open spec fn conforms(row: RowSpec, columns: Seq<ColumnSpec>) -> bool {
    &&& row.len() == columns.len()
    &&& forall|i: int|
        0 <= i < row.len() ==> {
            &&& (#[trigger] row[i]).0 == columns[i].name
            &&& row[i].1.data_type() == columns[i].data_type
            &&& storable(row[i].1)
        }
    &&& encode_fields(row).len() <= u64::MAX
}

/// Appends the payload of `row` to `out`.
pub fn put_row(out: &mut Vec<u8>, row: &Row)
    ensures
        final(out)@ == old(out)@ + encode_fields(row@),
{
    let mut i: usize = 0;
    proof {
        assert(row@.skip(0) =~= row@);
    }
    let ghost mut done: Seq<u8> = Seq::empty();
    assert(old(out)@ + done =~= old(out)@);
    while i < row.fields.len()
        invariant
            i <= row.fields.len(),
            out@ == old(out)@ + done,
            done + encode_fields(row@.skip(i as int)) == encode_fields(row@),
        decreases row.fields.len() - i,
    {
        let ghost tail = row@.skip(i as int);
        proof {
            assert(tail[0].1 == row.fields@[i as int].1@);
            assert(tail.skip(1) =~= row@.skip(i + 1));
            assert(done + (encode_value(tail[0].1) + encode_fields(row@.skip(i + 1))) =~= (done
                + encode_value(tail[0].1)) + encode_fields(row@.skip(i + 1)));
            assert(old(out)@ + done + encode_value(tail[0].1) =~= old(out)@ + (done
                + encode_value(tail[0].1)));
        }
        put_value(out, &row.fields[i].1);
        proof {
            done = done + encode_value(tail[0].1);
        }
        i = i + 1;
    }
    assert(encode_fields(row@.skip(i as int)) =~= Seq::<u8>::empty());
    assert(done + Seq::<u8>::empty() =~= done);
}

/// The log that holds `rows`, in order: what a full rewrite of a table's
/// data writes.
pub fn encode_rows(rows: &Vec<Row>) -> (log: Vec<u8>)
    ensures
        log@ == log_of(rows_view(rows@)),
{
    let ghost payloads = rows_view(rows@).map_values(|row: RowSpec| encode_fields(row));
    let mut log: Vec<u8> = Vec::new();
    let mut i: usize = 0;
    assert(payloads.take(0) =~= Seq::<Seq<u8>>::empty());
    while i < rows.len()
        invariant
            i <= rows.len(),
            payloads == rows_view(rows@).map_values(|row: RowSpec| encode_fields(row)),
            log@ == frames(payloads.take(i as int)),
        decreases rows.len() - i,
    {
        let mut payload: Vec<u8> = Vec::new();
        put_row(&mut payload, &rows[i]);
        proof {
            assert(payload@ =~= encode_fields(rows@[i as int]@));
            lemma_frames_push(payloads.take(i as int), payload@);
            assert(payloads.take(i + 1) =~= payloads.take(i as int).push(payload@));
        }
        append_frame(&mut log, &payload);
        i = i + 1;
    }
    assert(payloads.take(rows.len() as int) =~= payloads);
    log
}

/// A row's payload is read back as the row.
pub proof fn lemma_decode_fields_encode(row: RowSpec, columns: Seq<ColumnSpec>)
    requires
        conforms(row, columns),
    ensures
        decode_fields(encode_fields(row), columns) == Some(row),
    decreases row.len(),
{
    if row.len() == 0 {
        assert(row =~= Seq::empty());
    } else {
        let v = row[0].1;
        let tail = row.skip(1);
        let after = encode_fields(tail);
        lemma_decode_encode(v, after);
        let n = encode_value(v).len() as int;
        assert(encode_fields(row).skip(n) =~= after);
        assert(conforms(tail, columns.skip(1))) by {
            assert forall|i: int| 0 <= i < tail.len() implies {
                &&& (#[trigger] tail[i]).0 == columns.skip(1)[i].name
                &&& tail[i].1.data_type() == columns.skip(1)[i].data_type
                &&& storable(tail[i].1)
            } by {
                assert(tail[i] == row[i + 1]);
            }
        }
        lemma_decode_fields_encode(tail, columns.skip(1));
        assert(seq![(columns[0].name, v)] + tail =~= row);
    }
}

/// Scanning a log gives back the rows that were written to it, in the
/// order in which they were written.
pub proof fn lemma_scan_log(rows: Seq<RowSpec>, columns: Seq<ColumnSpec>)
    requires
        forall|i: int| 0 <= i < rows.len() ==> conforms(#[trigger] rows[i], columns),
    ensures
        scan(log_of(rows), columns) == Ok::<Seq<RowSpec>, ErrorKind>(rows),
    decreases rows.len(),
{
    let payloads = rows.map_values(|row: RowSpec| encode_fields(row));
    if rows.len() == 0 {
        assert(rows =~= Seq::empty());
    } else {
        let first = encode_fields(rows[0]);
        let tail = rows.skip(1);
        let log = log_of(rows);
        assert(conforms(rows[0], columns));
        assert(payloads.skip(1) =~= tail.map_values(|row: RowSpec| encode_fields(row)));
        assert(log == frame(first) + log_of(tail));
        lemma_frame_shape(first);
        let f = frame(first);
        assert(log[0] == f[0]);
        assert(log[9] == f[9]);
        assert(log.subrange(1, 9) =~= f.subrange(1, 9));
        let size = first.len() as int;
        assert(log.subrange(10, 10 + size) =~= first) by {
            assert(f.skip(10) == first);
            assert forall|k: int| 0 <= k < size implies log.subrange(10, 10 + size)[k]
                == first[k] by {
                assert(log[10 + k] == f[10 + k]);
                assert(f.skip(10)[k] == f[10 + k]);
            }
        }
        assert(log.skip(10 + size) =~= log_of(tail));
        lemma_decode_fields_encode(rows[0], columns);
        assert forall|i: int| 0 <= i < tail.len() implies conforms(#[trigger] tail[i], columns) by {
            assert(tail[i] == rows[i + 1]);
        }
        lemma_scan_log(tail, columns);
        assert(seq![rows[0]] + tail =~= rows);
    }
}

/// Appending a row to a table's data adds the row's frame to the log.
pub proof fn lemma_log_append(rows: Seq<RowSpec>, row: RowSpec)
    ensures
        log_of(rows.push(row)) == log_of(rows) + frame(encode_fields(row)),
{
    let payloads = rows.map_values(|r: RowSpec| encode_fields(r));
    assert(rows.push(row).map_values(|r: RowSpec| encode_fields(r)) =~= payloads.push(
        encode_fields(row),
    ));
    lemma_frames_push(payloads, encode_fields(row));
}

} // verus!
