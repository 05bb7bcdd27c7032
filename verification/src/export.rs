//! Writing the facts out: as a Markdown list and as two-column CSV. Both
//! produce the text; sending it to a file is the caller's part.

use crate::store::{Entry, KnowledgeBase};
use vstd::prelude::*;
use vstd::string::StringExecFns;

verus! {

/// The heading of the Markdown list.
pub open spec fn heading() -> Seq<char> {
    "# Knowledge Base\n\n"@
}

/// The Markdown line of one fact: `- **key** → value`.
pub open spec fn bullet(entry: Entry) -> Seq<char> {
    "- **"@ + entry.0 + "** → "@ + entry.1 + "\n"@
}

/// The Markdown list: the heading, then one line for each fact in order.
pub open spec fn markdown_of(entries: Seq<Entry>) -> Seq<char>
    decreases entries.len(),
{
    if entries.len() == 0 {
        heading()
    } else {
        markdown_of(entries.drop_last()) + bullet(entries.last())
    }
}

/// The bytes that the CSV writer produces for a record of two fields.
pub uninterp spec fn csv_record(key: Seq<char>, value: Seq<char>) -> Seq<u8>;

/// The records one behind the other, or `None` if one of them is missing.
pub open spec fn joined(records: Seq<Option<Seq<u8>>>) -> Option<Seq<u8>>
    decreases records.len(),
{
    if records.len() == 0 {
        Some(Seq::empty())
    } else {
        match (joined(records.drop_last()), records.last()) {
            (Some(before), Some(record)) => Some(before + record),
            _ => None,
        }
    }
}

/// The CSV text of the facts: the record of each fact, in order.
pub open spec fn csv_of(entries: Seq<Entry>) -> Seq<u8>
    decreases entries.len(),
{
    if entries.len() == 0 {
        Seq::empty()
    } else {
        csv_of(entries.drop_last()) + csv_record(entries.last().0, entries.last().1)
    }
}

/// Writes one record of two fields with a fresh `csv::Writer` over a byte
/// vector (`Writer::from_writer`, `write_record`, `into_inner`) and hands
/// back the bytes it wrote.
///
/// The contract claims of it that the bytes are there, and names them. The
/// writer reports an error only where the writer beneath it does, or where a
/// record has another number of fields than the first; a byte vector takes
/// every write, and a fresh writer has had no record yet.
#[verifier::external_body]
fn write_csv_record(key: &str, value: &str) -> (record: Option<Vec<u8>>)
    ensures
        record.deep_view() == Some(csv_record(key@, value@)),
{
    let mut writer = csv::Writer::from_writer(Vec::new());
    match writer.write_record([key, value]) {
        Ok(()) => writer.into_inner().ok(),
        Err(_) => None,
    }
}

/// Puts the records one behind the other. A missing record makes the whole
/// result missing.
pub fn join_records(records: &Vec<Option<Vec<u8>>>) -> (data: Option<Vec<u8>>)
    ensures
        data.deep_view() == joined(records.deep_view()),
{
    let mut data: Vec<u8> = Vec::new();
    let mut i: usize = 0;
    while i < records.len()
        invariant
            i <= records.len(),
            joined(records.deep_view().take(i as int)) == Some(data@),
        decreases records.len() - i,
    {
        proof {
            let upto = records.deep_view().take(i + 1);
            assert(upto.drop_last() =~= records.deep_view().take(i as int));
        }
        match &records[i] {
            Some(record) => {
                data.extend_from_slice(record.as_slice());
            },
            None => {
                proof {
                    lemma_joined_missing(records.deep_view(), i + 1);
                }
                return None;
            },
        }
        i += 1;
    }
    assert(records.deep_view().take(records.len() as int) =~= records.deep_view());
    Some(data)
}

/// Where the records up to `n` cannot be joined, the whole cannot either.
pub proof fn lemma_joined_missing(records: Seq<Option<Seq<u8>>>, n: int)
    requires
        0 <= n <= records.len(),
        joined(records.take(n)) is None,
    ensures
        joined(records) is None,
    decreases records.len() - n,
{
    if n < records.len() {
        assert(records.take(n + 1).drop_last() =~= records.take(n));
        lemma_joined_missing(records, n + 1);
    } else {
        assert(records.take(n) =~= records);
    }
}

impl KnowledgeBase {
    /// The facts as a Markdown list: a heading, then one line
    /// `- **key** → value` for each fact, in the order of first teaching.
    pub fn export_markdown(&self) -> (text: String)
        ensures
            text@ == markdown_of(self@.entries),
    {
        let n = self.len();
        let mut text = String::from_str("# Knowledge Base\n\n");
        let mut i: usize = 0;
        while i < n
            invariant
                i <= n,
                n == self@.entries.len(),
                text@ == markdown_of(self@.entries.take(i as int)),
            decreases n - i,
        {
            match self.fact(i) {
                Some(fact) => {
                    text.append("- **");
                    text.append(fact.key.as_str());
                    text.append("** → ");
                    text.append(fact.value.as_str());
                    text.append("\n");
                },
                None => {},
            }
            proof {
                let upto = self@.entries.take(i + 1);
                assert(upto.drop_last() =~= self@.entries.take(i as int));
            }
            i += 1;
        }
        assert(self@.entries.take(n as int) =~= self@.entries);
        text
    }

    /// The facts as CSV: one record of key and value for each fact, in the
    /// order of first teaching, without a header row. The text is always
    /// there.
    pub fn export_csv(&self) -> (data: Option<Vec<u8>>)
        ensures
            data.deep_view() == Some(csv_of(self@.entries)),
    {
        let n = self.len();
        let mut records: Vec<Option<Vec<u8>>> = Vec::new();
        let mut i: usize = 0;
        while i < n
            invariant
                i <= n,
                n == self@.entries.len(),
                records.len() == i,
                joined(records.deep_view()) == Some(csv_of(self@.entries.take(i as int))),
            decreases n - i,
        {
            let ghost earlier = records.deep_view();
            match self.fact(i) {
                Some(fact) => {
                    let record = write_csv_record(fact.key.as_str(), fact.value.as_str());
                    records.push(record);
                    proof {
                        let upto = self@.entries.take(i + 1);
                        assert(upto.drop_last() =~= self@.entries.take(i as int));
                        assert(records.deep_view().drop_last() =~= earlier);
                    }
                },
                None => {},
            }
            i += 1;
        }
        assert(self@.entries.take(n as int) =~= self@.entries);
        join_records(&records)
    }
}

} // verus!
