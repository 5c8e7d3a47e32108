//! Writing the records of a reader as tab-separated values.
use vstd::prelude::*;
use vstd::string::StringSliceAdditionalSpecFns;
use vstd::utf8::encode_utf8;

use crate::error::EtError;
use crate::record::{ByteSink, Record, RecordReader};
use crate::utils::TAB;

verus! {

/// The line feed that opens every row but the first.
pub const LF: u8 = 10;

/// The fields of one row in order, with a tab between every two of them.
pub open spec fn row(fields: Seq<Seq<u8>>) -> Seq<u8>
    decreases fields.len(),
{
    if fields.len() == 0 {
        Seq::empty()
    } else if fields.len() == 1 {
        fields[0]
    } else {
        row(fields.drop_last()) + seq![TAB] + fields.last()
    }
}

/// The rows of `records` in order, each behind a line feed.
pub open spec fn rows(records: Seq<Seq<Seq<u8>>>) -> Seq<u8>
    decreases records.len(),
{
    if records.len() == 0 {
        Seq::empty()
    } else {
        rows(records.drop_last()) + seq![LF] + row(records.last())
    }
}

/// The names of the columns as the bytes of their text.
pub open spec fn header_fields(columns: Seq<Seq<char>>) -> Seq<Seq<u8>> {
    Seq::new(columns.len(), |i: int| encode_utf8(columns[i]))
}

/// A whole table: the row of the column names, then the rows of `records`.
pub open spec fn table(columns: Seq<Seq<char>>, records: Seq<Seq<Seq<u8>>>) -> Seq<u8> {
    row(header_fields(columns)) + rows(records)
}

/// Writes the fields of `record` to `sink` as one row, without a line feed.
/// The call fails only where the sink does: into an unfailing sink the
/// whole row is written.
pub fn write_row<T: Record, W: ByteSink>(record: &T, sink: &mut W) -> (r: Result<(), EtError>)
    ensures
        r is Ok ==> final(sink).written() == old(sink).written() + row(record.fields()),
        old(sink).unfailing() ==> r is Ok && final(sink).unfailing(),
{
    let n = record.size();
    let mut i: usize = 0;
    while i < n
        invariant
            i <= n == record.fields().len(),
            sink.written() == old(sink).written() + row(record.fields().take(i as int)),
            old(sink).unfailing() ==> sink.unfailing(),
        decreases n - i,
    {
        if i > 0 {
            let tab = [TAB];
            match sink.write(&tab) {
                Ok(()) => {},
                Err(e) => {
                    return Err(e);
                },
            }
        }
        match record.write_field(i, sink) {
            Ok(()) => {},
            Err(e) => {
                return Err(e);
            },
        }
        proof {
            let done = record.fields().take(i + 1);
            assert(done.drop_last() == record.fields().take(i as int));
            assert(done.last() == record.fields()[i as int]);
            if i > 0 {
                assert(sink.written() == old(sink).written() + (row(done.drop_last()) + seq![TAB]
                    + done.last()));
            } else {
                assert(row(done.drop_last()) == Seq::<u8>::empty());
                assert(sink.written() == old(sink).written() + done.last());
            }
        }
        i += 1;
    }
    proof {
        assert(record.fields().take(n as int) == record.fields());
        assert(old(sink).written() + Seq::<u8>::empty() == old(sink).written());
    }
    Ok(())
}

/// Writes a line feed and then the fields of `record` to `sink`: one row
/// of a table behind the rows before it. The call fails only where the
/// sink does.
pub fn write_line<T: Record, W: ByteSink>(record: &T, sink: &mut W) -> (r: Result<(), EtError>)
    ensures
        r is Ok ==> final(sink).written() == old(sink).written() + seq![LF] + row(
            record.fields(),
        ),
        old(sink).unfailing() ==> r is Ok && final(sink).unfailing(),
{
    let lf = [LF];
    match sink.write(&lf) {
        Ok(()) => {},
        Err(e) => {
            return Err(e);
        },
    }
    write_row(record, sink)
}

/// The bytes of every name in `names`.
pub open spec fn name_fields(names: Seq<&'static str>) -> Seq<Seq<u8>> {
    Seq::new(names.len(), |i: int| names[i].spec_bytes())
}

/// Writes `names` to `sink` as one row, without a line feed. The call
/// fails only where the sink does: into an unfailing sink the whole row is
/// written.
pub fn write_names<W: ByteSink>(names: &Vec<&'static str>, sink: &mut W) -> (r: Result<
    (),
    EtError,
>)
    ensures
        r is Ok ==> final(sink).written() == old(sink).written() + row(name_fields(names@)),
        old(sink).unfailing() ==> r is Ok && final(sink).unfailing(),
{
    let n = names.len();
    let mut i: usize = 0;
    while i < n
        invariant
            i <= n == names@.len(),
            sink.written() == old(sink).written() + row(name_fields(names@).take(i as int)),
            old(sink).unfailing() ==> sink.unfailing(),
        decreases n - i,
    {
        if i > 0 {
            let tab = [TAB];
            match sink.write(&tab) {
                Ok(()) => {},
                Err(e) => {
                    return Err(e);
                },
            }
        }
        match sink.write(names[i].as_bytes()) {
            Ok(()) => {},
            Err(e) => {
                return Err(e);
            },
        }
        proof {
            let done = name_fields(names@).take(i + 1);
            assert(done.drop_last() == name_fields(names@).take(i as int));
            assert(done.last() == names@[i as int].spec_bytes());
            if i > 0 {
                assert(sink.written() == old(sink).written() + (row(done.drop_last()) + seq![TAB]
                    + done.last()));
            } else {
                assert(row(done.drop_last()) == Seq::<u8>::empty());
                assert(sink.written() == old(sink).written() + done.last());
            }
        }
        i += 1;
    }
    proof {
        assert(name_fields(names@).take(n as int) == name_fields(names@));
        assert(old(sink).written() + Seq::<u8>::empty() == old(sink).written());
    }
    Ok(())
}

/// Writes all that `reader` still holds to `sink` as a table: the names of
/// the columns in the first row, then one row for every record, in the
/// order in which the reader hands them out. Rows are parted by line feeds
/// and fields by tabs.
///
/// When the call succeeds the reader is at its end, and `sink` has taken
/// the table of exactly the records that the reader handed out meanwhile.
/// The same table has been taken when the reader fails, as long as the sink
/// does not. The call succeeds whenever neither the reader nor the sink can
/// fail.
///
/// For a settled reader and an unfailing sink the outcome is fixed before
/// the call: the sink takes the names and the rows of the reader's pending
/// records, and the call succeeds when the reader is unfailing and else
/// fails with the reader's fault.
pub fn write_reader_to_tsv<R, W: ByteSink>(reader: &mut R, sink: &mut W) -> (r: Result<
    (),
    EtError,
>) where R: for<'a> RecordReader<'a>
    requires
        old(reader).wf(),
    ensures
        final(reader).wf(),
        final(reader).columns() == old(reader).columns(),
        old(reader).emitted().is_prefix_of(final(reader).emitted()),
        r is Ok ==> final(reader).finished(),
        r is Ok || old(sink).unfailing() ==> final(sink).written() == old(sink).written() + table(
            old(reader).columns(),
            final(reader).emitted().skip(old(reader).emitted().len() as int),
        ),
        old(sink).unfailing() ==> final(sink).unfailing(),
        old(reader).unfailing() ==> final(reader).unfailing(),
        old(sink).unfailing() && (old(reader).unfailing() || old(reader).finished()) ==> r is Ok,
        old(reader).finished() ==> final(reader).emitted() == old(reader).emitted(),
        old(reader).settled() ==> final(reader).settled(),
        old(reader).settled() && old(sink).unfailing() ==> {
            &&& final(sink).written() == old(sink).written() + table(
                old(reader).columns(),
                old(reader).pending(),
            )
            &&& r is Ok <==> old(reader).unfailing()
            &&& r matches Err(e) ==> old(reader).fails_with(e)
        },
{
    let names = reader.headers();
    let ghost first = old(reader).emitted().len() as int;
    proof {
        assert(reader.emitted().skip(first) == Seq::<Seq<Seq<u8>>>::empty());
    }
    match write_names(&names, sink) {
        Ok(()) => {},
        Err(e) => {
            return Err(e);
        },
    }
    proof {
        assert(name_fields(names@) == header_fields(reader.columns()));
        assert(sink.written() + Seq::<u8>::empty() == sink.written());
    }
    loop
        invariant
            reader.wf(),
            reader.columns() == old(reader).columns(),
            old(reader).emitted().is_prefix_of(reader.emitted()),
            first == old(reader).emitted().len(),
            old(sink).unfailing() ==> sink.unfailing(),
            old(reader).unfailing() ==> reader.unfailing(),
            old(reader).settled() ==> {
                &&& reader.settled()
                &&& old(reader).pending() == reader.emitted().skip(first) + reader.pending()
                &&& reader.unfailing() == old(reader).unfailing()
                &&& forall|e: EtError| #[trigger]
                    reader.fails_with(e) == old(reader).fails_with(e)
            },
            old(reader).finished() ==> reader.finished() && reader.emitted() == old(
                reader,
            ).emitted(),
            sink.written() == old(sink).written() + table(
                old(reader).columns(),
                reader.emitted().skip(first),
            ),
        decreases reader.budget(),
    {
        let ghost before = reader.emitted();
        let ghost so_far = sink.written();
        let ghost fields;
        match reader.next() {
            Ok(Some(record)) => {
                proof {
                    fields = record.fields();
                }
                match write_line(&record, sink) {
                    Ok(()) => {},
                    Err(e) => {
                        return Err(e);
                    },
                }
            },
            Ok(None) => {
                return Ok(());
            },
            Err(e) => {
                return Err(e);
            },
        }
        proof {
            let now = reader.emitted().skip(first);
            assert(reader.emitted() == before.push(fields));
            assert(now.drop_last() == before.skip(first));
            assert(now.last() == fields);
            assert(sink.written() == so_far + seq![LF] + row(fields));
            assert(sink.written() == old(sink).written() + (row(
                header_fields(old(reader).columns()),
            ) + (rows(now.drop_last()) + seq![LF] + row(now.last()))));
        }
    }
}

} // verus!
