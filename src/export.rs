use vstd::prelude::*;
use vstd::string::StringExecFns;
use vstd::utf8::{
    decode_utf8, encode_utf8, encode_utf8_decode_utf8, encode_utf8_valid_utf8, valid_utf8,
};
use crate::csv_out::{csv_record, csv_written, flush_writer, new_csv_writer, write_pair, writer_bytes};
use crate::decimal::{decimal, decimal_string};
use crate::registry::CounterRegistry;
use crate::table::CountTable;

verus! {

/// Why an export failed.
#[derive(Debug)]
pub enum ExportError {
    /// A record could not be encoded, or the encoded records not be flushed.
    Encode(String),
    /// The encoded records are not valid UTF-8.
    Text(String),
    /// The destination could not be written.
    Io(String),
}

/// The exported text of a table's entries: one record per entry, the key
/// and its count in decimal, in the entries' order, and no header.
pub open spec fn csv_text(s: Seq<(Seq<char>, u32)>) -> Seq<char>
    decreases s.len(),
{
    if s.len() == 0 {
        Seq::empty()
    } else {
        csv_text(s.drop_last()) + csv_record(s.last().0, decimal(s.last().1 as nat))
    }
}

/// A table with no entries exports no records at all.
pub proof fn lemma_empty_table_exports_nothing(s: Seq<(Seq<char>, u32)>)
    requires
        s.len() == 0,
    ensures
        csv_text(s) == Seq::<char>::empty(),
{
}

/// Encoding text piece by piece gives the encoding of the whole.
pub proof fn lemma_encode_utf8_concat(a: Seq<char>, b: Seq<char>)
    ensures
        encode_utf8(a + b) == encode_utf8(a) + encode_utf8(b),
    decreases a.len(),
{
    if a.len() > 0 {
        assert((a + b).drop_first() =~= a.drop_first() + b);
        lemma_encode_utf8_concat(a.drop_first(), b);
        assert((a + b)[0] == a[0]);
        assert(encode_utf8(a + b) =~= encode_utf8(a) + encode_utf8(b));
    } else {
        assert(a + b =~= b);
    }
}

/// Relies on `String::from_utf8`: it accepts exactly the valid UTF-8 byte
/// sequences, and the text is what they encode.
#[verifier::external_body]
fn utf8_string(b: Vec<u8>) -> (r: Result<String, String>)
    ensures
        r is Ok <==> valid_utf8(b@),
        r matches Ok(s) ==> s@ == decode_utf8(b@),
{
    match String::from_utf8(b) {
        Ok(s) => Ok(s),
        Err(e) => Err(e.to_string()),
    }
}

/// Encodes every entry of `t` as a `key,count` record, in stored order.
pub fn encode_table(t: &CountTable) -> (r: Result<Vec<u8>, ExportError>)
    ensures
        r matches Ok(b) && b@ == encode_utf8(csv_text(t@)),
{
    let mut w = new_csv_writer();
    let n = t.len();
    let mut i: usize = 0;
    proof {
        assert(t@.subrange(0, 0) =~= Seq::<(Seq<char>, u32)>::empty());
        assert(encode_utf8(Seq::<char>::empty()) =~= Seq::<u8>::empty());
    }
    while i < n
        invariant
            n == t@.len(),
            i <= n,
            csv_written(w) == encode_utf8(csv_text(t@.subrange(0, i as int))),
        decreases n - i,
    {
        let (key, count) = t.entry(i);
        let digits = decimal_string(count);
        match write_pair(&mut w, key.as_str(), digits.as_str()) {
            Ok(()) => {},
            Err(m) => {
                return Err(ExportError::Encode(m));
            },
        }
        proof {
            let s = t@.subrange(0, i + 1);
            assert(s.drop_last() =~= t@.subrange(0, i as int));
            lemma_encode_utf8_concat(csv_text(s.drop_last()), csv_record(key@, digits@));
        }
        i = i + 1;
    }
    assert(t@.subrange(0, n as int) =~= t@);
    match flush_writer(&mut w) {
        Ok(()) => {},
        Err(m) => {
            return Err(ExportError::Encode(m));
        },
    }
    match writer_bytes(w) {
        Ok(b) => Ok(b),
        Err(m) => Err(ExportError::Encode(m)),
    }
}

/// The encoded records as text: `Text` exactly when they are not valid
/// UTF-8.
pub fn records_text(b: Vec<u8>) -> (r: Result<String, ExportError>)
    ensures
        r is Ok <==> valid_utf8(b@),
        r matches Ok(s) ==> s@ == decode_utf8(b@),
        r matches Err(e) ==> e is Text,
{
    match utf8_string(b) {
        Ok(s) => Ok(s),
        Err(m) => Err(ExportError::Text(m)),
    }
}

/// The exported text of `t`. The encoding is checked for validity, and
/// always passes.
pub fn table_csv(t: &CountTable) -> (r: Result<String, ExportError>)
    ensures
        r matches Ok(s) && s@ == csv_text(t@),
{
    let b = encode_table(t)?;
    proof {
        encode_utf8_valid_utf8(csv_text(t@));
        encode_utf8_decode_utf8(csv_text(t@));
    }
    records_text(b)
}

/// The confirmation for an export written to `path`.
pub fn saved_message(path: &str) -> (r: String)
    ensures
        r@ == seq!['D', 'a', 't', 'a', ' ', 's', 'a', 'v', 'e', 'd', ' ', 't', 'o', ' '] + path@,
{
    proof {
        reveal_strlit("Data saved to ");
    }
    let mut s = String::from_str("Data saved to ");
    s.append(path);
    s
}

impl CounterRegistry {
    /// The exported text of a snapshot of the registry.
    pub fn export_csv(&self) -> (r: Result<String, ExportError>)
        ensures
            r matches Ok(s) && s@ == csv_text(self@),
    {
        let t = self.snapshot();
        table_csv(&t)
    }
}

} // verus!
