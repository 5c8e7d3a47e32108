//! What every format offers: a reader that names its columns and hands out
//! records, and records that write their fields to a sink of bytes.
use vstd::prelude::*;

use crate::error::EtError;

verus! {

/// Anything that takes bytes in the order in which they are written.
pub trait ByteSink {
    /// All the bytes that the sink has taken, in order.
    spec fn written(&self) -> Seq<u8>;

    /// True for a sink that takes whatever it is handed, now and ever
    /// after.
    spec fn unfailing(&self) -> bool;

    /// Hands `bytes` to the sink. After a failure nothing is known of what
    /// the sink has taken. A sink that is unfailing succeeds, and stays so.
    fn write(&mut self, bytes: &[u8]) -> (r: Result<(), EtError>)
        ensures
            r is Ok ==> final(self).written() == old(self).written() + bytes@,
            old(self).unfailing() ==> r is Ok && final(self).unfailing(),
    ;
}

impl ByteSink for Vec<u8> {
    open spec fn written(&self) -> Seq<u8> {
        self@
    }

    open spec fn unfailing(&self) -> bool {
        true
    }

    /// Appends `bytes`; this sink never fails.
    fn write(&mut self, bytes: &[u8]) -> (r: Result<(), EtError>)
        ensures
            r is Ok,
    {
        self.extend_from_slice(bytes);
        Ok(())
    }
}

/// One row of the table.
pub trait Record {
    /// The bytes of every field, in the order of the columns.
    spec fn fields(&self) -> Seq<Seq<u8>>;

    /// Number of fields.
    fn size(&self) -> (n: usize)
        ensures
            n == self.fields().len(),
    ;

    /// Writes the field at `index` to `sink`. The call fails only where
    /// the sink does: into an unfailing sink every field is written.
    fn write_field<W: ByteSink>(&self, index: usize, sink: &mut W) -> (r: Result<(), EtError>)
        requires
            index < self.fields().len(),
        ensures
            r is Ok ==> final(sink).written() == old(sink).written() + self.fields()[index as int],
            old(sink).unfailing() ==> r is Ok && final(sink).unfailing(),
    ;
}

/// A record whose fields have been put into bytes beforehand.
#[derive(Clone, Debug, Default)]
pub struct TextRecord {
    /// The bytes of every field, in the order of the columns.
    pub cells: Vec<Vec<u8>>,
}

impl Record for TextRecord {
    open spec fn fields(&self) -> Seq<Seq<u8>> {
        Seq::new(self.cells@.len(), |i: int| self.cells@[i]@)
    }

    fn size(&self) -> (n: usize) {
        self.cells.len()
    }

    fn write_field<W: ByteSink>(&self, index: usize, sink: &mut W) -> (r: Result<(), EtError>) {
        sink.write(self.cells[index].as_slice())
    }
}

/// A source of records that all have the same columns.
///
/// The lifetime is that of one call of `next`: a record may borrow from the
/// reader until the next one is asked for.
pub trait RecordReader<'a> {
    /// The records that the reader hands out.
    type Item: Record;

    /// What the reader needs to hold of itself.
    spec fn wf(&self) -> bool;

    /// The names of the columns.
    spec fn columns(&self) -> Seq<Seq<char>>;

    /// The fields of every record handed out so far.
    spec fn emitted(&self) -> Seq<Seq<Seq<u8>>>;

    /// True once the reader has come to the end of its records.
    spec fn finished(&self) -> bool;

    /// A bound on the number of records that may still come.
    spec fn budget(&self) -> nat;

    /// True for a reader whose further course is fixed by what it holds:
    /// nothing that it has still to learn can change what it hands out.
    spec fn settled(&self) -> bool;

    /// The fields of every record that a settled reader has still to hand
    /// out, in order, up to its end or to its first fault.
    spec fn pending(&self) -> Seq<Seq<Seq<u8>>>;

    /// True when `e` is an error with which a settled reader fails once it
    /// has handed out its pending records.
    spec fn fails_with(&self, e: EtError) -> bool;

    /// True for a settled reader that comes to the end of its records
    /// without a fault.
    spec fn unfailing(&self) -> bool;

    /// The names of the columns, the same at every call.
    fn headers(&self) -> (names: Vec<&'static str>)
        requires
            self.wf(),
        ensures
            names@.len() == self.columns().len(),
            forall|i: int| 0 <= i < names@.len() ==> (#[trigger] names@[i])@ == self.columns()[i],
    ;

    /// Hands out the next record, or `None` at the end. Every record has
    /// one field for every column, and after the end no record comes.
    ///
    /// A settled reader hands out the first of its pending records and
    /// keeps the others. Without a pending record it is at its end when it
    /// is unfailing, and else fails with its fault. An unfailing reader
    /// succeeds, and stays unfailing.
    fn next(&'a mut self) -> (r: Result<Option<Self::Item>, EtError>)
        requires
            old(self).wf(),
        ensures
            final(self).wf(),
            final(self).columns() == old(self).columns(),
            old(self).finished() ==> r matches Ok(None),
            old(self).unfailing() ==> old(self).settled() && r is Ok && final(self).unfailing(),
            old(self).settled() ==> final(self).settled(),
            old(self).settled() ==> match r {
                Ok(Some(record)) => {
                    &&& old(self).pending() == seq![record.fields()] + final(self).pending()
                    &&& final(self).unfailing() == old(self).unfailing()
                    &&& forall|e: EtError| #[trigger]
                        final(self).fails_with(e) == old(self).fails_with(e)
                },
                Ok(None) => old(self).pending().len() == 0 && old(self).unfailing(),
                Err(e) => {
                    &&& old(self).pending().len() == 0
                    &&& !old(self).unfailing()
                    &&& old(self).fails_with(e)
                },
            },
            match r {
                Ok(Some(record)) => {
                    &&& record.fields().len() == old(self).columns().len()
                    &&& final(self).emitted() == old(self).emitted().push(record.fields())
                    &&& final(self).budget() < old(self).budget()
                },
                Ok(None) => {
                    &&& final(self).finished()
                    &&& final(self).emitted() == old(self).emitted()
                },
                Err(_) => final(self).emitted() == old(self).emitted(),
            },
    ;
}

} // verus!
