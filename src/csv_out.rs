use vstd::prelude::*;
use vstd::utf8::encode_utf8;

verus! {

/// A csv writer over a byte buffer, opaque to proofs: what it has accepted
/// is known through `csv_written` alone. Only `write_pair` writes to it.
#[verifier::external_body]
pub(crate) struct CsvSink {
    w: csv::Writer<Vec<u8>>,
}

/// The bytes that a csv writer has accepted so far, whether still in its
/// internal buffer or already handed to the inner one.
pub uninterp spec fn csv_written(w: CsvSink) -> Seq<u8>;

/// A character that forces the default csv writer to quote a field.
pub open spec fn is_special(c: char) -> bool {
    c == ',' || c == '"' || c == '\n' || c == '\r'
}

/// Whether the default csv writer quotes the field `f`.
pub open spec fn needs_quotes(f: Seq<char>) -> bool {
    exists|i: int| 0 <= i < f.len() && is_special(#[trigger] f[i])
}

/// `f` with each quote character doubled.
pub open spec fn doubled_quotes(f: Seq<char>) -> Seq<char>
    decreases f.len(),
{
    if f.len() == 0 {
        Seq::empty()
    } else if f[0] == '"' {
        seq!['"', '"'] + doubled_quotes(f.drop_first())
    } else {
        seq![f[0]] + doubled_quotes(f.drop_first())
    }
}

/// `s` with each pair of quote characters read as one quote.
pub open spec fn undoubled_quotes(s: Seq<char>) -> Seq<char>
    decreases s.len(),
{
    if s.len() == 0 {
        Seq::empty()
    } else if s.len() >= 2 && s[0] == '"' && s[1] == '"' {
        seq!['"'] + undoubled_quotes(s.subrange(2, s.len() as int))
    } else {
        seq![s[0]] + undoubled_quotes(s.drop_first())
    }
}

/// How a reader takes a written field back: a field in quotes loses them
/// and has its doubled quotes read as single ones; any other is taken as
/// it stands.
pub open spec fn read_field(w: Seq<char>) -> Seq<char> {
    if w.len() >= 2 && w[0] == '"' && w.last() == '"' {
        undoubled_quotes(w.subrange(1, w.len() - 1))
    } else {
        w
    }
}

/// Doubling the quotes of `f` and then reading them back gives `f`.
pub proof fn lemma_undouble_doubled(f: Seq<char>)
    ensures
        undoubled_quotes(doubled_quotes(f)) == f,
    decreases f.len(),
{
    if f.len() > 0 {
        let d = doubled_quotes(f);
        let rest = doubled_quotes(f.drop_first());
        lemma_undouble_doubled(f.drop_first());
        if f[0] == '"' {
            assert(d.subrange(2, d.len() as int) =~= rest);
        } else {
            assert(d.drop_first() =~= rest);
        }
        assert(undoubled_quotes(d) =~= f);
    }
}

/// Quoting round-trips: a reader recovers every field exactly as it was,
/// commas, quotes and line breaks included.
pub proof fn lemma_field_round_trip(f: Seq<char>)
    ensures
        read_field(csv_field(f)) == f,
{
    if needs_quotes(f) {
        let w = csv_field(f);
        assert(w.subrange(1, w.len() - 1) =~= doubled_quotes(f));
        lemma_undouble_doubled(f);
    } else if f.len() >= 2 && f[0] == '"' {
        assert(is_special(f[0]));
    }
}

/// How one field is written: as it is, or, where it holds a special
/// character, in quotes with its quotes doubled.
pub open spec fn csv_field(f: Seq<char>) -> Seq<char> {
    if needs_quotes(f) {
        seq!['"'] + doubled_quotes(f) + seq!['"']
    } else {
        f
    }
}

/// How a record of two fields is written: the fields separated by a comma,
/// then a line feed.
pub open spec fn csv_record(a: Seq<char>, b: Seq<char>) -> Seq<char> {
    csv_field(a) + seq![','] + csv_field(b) + seq!['\n']
}

/// Relies on `csv::Writer::from_writer`: a writer with the default
/// configuration over an empty buffer, which has accepted nothing yet.
#[verifier::external_body]
pub(crate) fn new_csv_writer() -> (w: CsvSink)
    ensures
        csv_written(w) == Seq::<u8>::empty(),
{
    CsvSink { w: csv::Writer::from_writer(Vec::new()) }
}

/// Relies on `csv::Writer::write_record` with the default configuration:
/// the UTF-8 encoding of the record follows what the writer had accepted
/// before. Writing to a `Vec` cannot fail, and every record of a `CsvSink`
/// has two fields, so the record-length check passes.
#[verifier::external_body]
pub(crate) fn write_pair(w: &mut CsvSink, first: &str, second: &str) -> (r: Result<
    (),
    String,
>)
    ensures
        r is Ok,
        csv_written(*final(w)) == csv_written(*old(w)) + encode_utf8(csv_record(first@, second@)),
{
    match w.w.write_record([first, second]) {
        Ok(()) => Ok(()),
        Err(e) => Err(e.to_string()),
    }
}

/// Relies on `csv::Writer::flush`: it moves buffered bytes to the inner
/// buffer and adds none; writing to a `Vec` cannot fail.
#[verifier::external_body]
pub(crate) fn flush_writer(w: &mut CsvSink) -> (r: Result<(), String>)
    ensures
        r is Ok,
        csv_written(*final(w)) == csv_written(*old(w)),
{
    match w.w.flush() {
        Ok(()) => Ok(()),
        Err(e) => Err(e.to_string()),
    }
}

/// Relies on `csv::Writer::into_inner`: on success the inner buffer holds
/// every byte that the writer accepted; flushing into a `Vec` cannot fail.
#[verifier::external_body]
pub(crate) fn writer_bytes(w: CsvSink) -> (r: Result<Vec<u8>, String>)
    ensures
        r is Ok,
        r->Ok_0@ == csv_written(w),
{
    match w.w.into_inner() {
        Ok(b) => Ok(b),
        Err(e) => Err(e.to_string()),
    }
}

} // verus!
