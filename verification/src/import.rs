//! Bulk teaching from text: lines of the form `key=value`, and two-column
//! tabular data in CSV.

use crate::store::{accepted, teach_all, well_formed, Entry, KnowledgeBase};
use crate::text::{
    chars_of, find_char, first_index, lemma_first_index, lemma_trimmed, trim, trimmed,
};
use vstd::prelude::*;
use vstd::string::StrSliceExecFns;

verus! {

/// The pair that a line stands for: the line is cut at its first `=`, and
/// both sides are trimmed. A line without `=` stands for nothing.
pub open spec fn fact_of_line(line: Seq<char>) -> Option<Entry> {
    let at = first_index(line, '=', 0);
    if at < line.len() {
        Some((trimmed(line.subrange(0, at)), trimmed(line.subrange(at + 1, line.len() as int))))
    } else {
        None
    }
}

/// The pair that a row of fields stands for: its first two fields. A row
/// that could not be read, or that has fewer than two fields, stands for
/// nothing.
pub open spec fn fact_of_row(row: Option<Seq<Seq<char>>>) -> Option<Entry> {
    match row {
        Some(fields) => if fields.len() >= 2 {
            Some((fields[0], fields[1]))
        } else {
            None
        },
        None => None,
    }
}

/// The pairs among `items`, in their order.
pub open spec fn present(items: Seq<Option<Entry>>) -> Seq<Entry>
    decreases items.len(),
{
    if items.len() == 0 {
        Seq::empty()
    } else {
        match items.last() {
            Some(pair) => present(items.drop_last()).push(pair),
            None => present(items.drop_last()),
        }
    }
}

/// The pairs that the lines stand for, in the order of the lines.
pub open spec fn facts_of_lines(lines: Seq<Seq<char>>) -> Seq<Entry> {
    present(lines.map_values(|line: Seq<char>| fact_of_line(line)))
}

/// The pairs that the rows stand for, in the order of the rows.
pub open spec fn facts_of_rows(rows: Seq<Option<Seq<Seq<char>>>>) -> Seq<Entry> {
    present(rows.map_values(|row: Option<Seq<Seq<char>>>| fact_of_row(row)))
}

/// The rows that the CSV reader finds in `data`, read without a header row
/// and with rows of any length: each row with its fields, or `None` where the
/// reader reports an error for the row.
pub uninterp spec fn csv_rows(data: Seq<u8>) -> Seq<Option<Seq<Seq<char>>>>;

/// One more item adds its pair, if it has one, behind the others.
pub proof fn lemma_present_push(items: Seq<Option<Entry>>, item: Option<Entry>)
    ensures
        present(items.push(item)) == match item {
            Some(pair) => present(items).push(pair),
            None => present(items),
        },
{
    assert(items.push(item).drop_last() =~= items);
}

/// A line stands for a pair exactly when it holds a `=`, and the key of the
/// pair never holds one.
pub proof fn lemma_fact_of_line(line: Seq<char>)
    ensures
        fact_of_line(line) is Some <==> line.contains('='),
        fact_of_line(line) matches Some(pair) ==> !pair.0.contains('='),
{
    let at = first_index(line, '=', 0);
    lemma_first_index(line, '=', 0);
    if at < line.len() {
        lemma_trimmed(line.subrange(0, at));
    }
}

/// Reads one `key=value` line.
pub fn parse_fact_line(line: &str) -> (pair: Option<(String, String)>)
    ensures
        pair.deep_view() == fact_of_line(line@),
{
    let chars = chars_of(line);
    let at = find_char(&chars, '=', 0);
    if at < chars.len() {
        let key = trim(line.substring_char(0, at)).to_owned();
        let value = trim(line.substring_char(at + 1, chars.len())).to_owned();
        Some((key, value))
    } else {
        None
    }
}

/// Reads every line, and keeps the pairs of those that have one.
pub fn parse_fact_lines(lines: &Vec<String>) -> (pairs: Vec<(String, String)>)
    ensures
        pairs.deep_view() == facts_of_lines(lines.deep_view()),
{
    let mut pairs: Vec<(String, String)> = Vec::new();
    let mut i: usize = 0;
    let ghost read = |line: Seq<char>| fact_of_line(line);
    while i < lines.len()
        invariant
            i <= lines.len(),
            read == |line: Seq<char>| fact_of_line(line),
            pairs.deep_view() == present(lines.deep_view().take(i as int).map_values(read)),
        decreases lines.len() - i,
    {
        let pair = parse_fact_line(lines[i].as_str());
        proof {
            let before = lines.deep_view().take(i as int).map_values(read);
            assert(lines.deep_view().take(i + 1).map_values(read) =~= before.push(
                fact_of_line(lines[i as int]@),
            ));
            lemma_present_push(before, fact_of_line(lines[i as int]@));
        }
        match pair {
            Some(p) => {
                pairs.push(p);
            },
            None => {},
        }
        i += 1;
    }
    assert(lines.deep_view().take(lines.len() as int) =~= lines.deep_view());
    pairs
}

/// Picks the first two fields of every row that was read and has them.
pub fn pairs_of_rows(rows: &Vec<Option<Vec<String>>>) -> (pairs: Vec<(String, String)>)
    ensures
        pairs.deep_view() == facts_of_rows(rows.deep_view()),
{
    let mut pairs: Vec<(String, String)> = Vec::new();
    let mut i: usize = 0;
    let ghost read = |row: Option<Seq<Seq<char>>>| fact_of_row(row);
    while i < rows.len()
        invariant
            i <= rows.len(),
            read == |row: Option<Seq<Seq<char>>>| fact_of_row(row),
            pairs.deep_view() == present(rows.deep_view().take(i as int).map_values(read)),
        decreases rows.len() - i,
    {
        proof {
            let before = rows.deep_view().take(i as int).map_values(read);
            assert(rows.deep_view().take(i + 1).map_values(read) =~= before.push(
                fact_of_row(rows[i as int].deep_view()),
            ));
            lemma_present_push(before, fact_of_row(rows[i as int].deep_view()));
        }
        match &rows[i] {
            Some(fields) => {
                if fields.len() >= 2 {
                    pairs.push((fields[0].clone(), fields[1].clone()));
                }
            },
            None => {},
        }
        i += 1;
    }
    assert(rows.deep_view().take(rows.len() as int) =~= rows.deep_view());
    pairs
}

/// Runs the CSV reader of the `csv` crate over `data`, set up to take the
/// first row as data (`has_headers(false)`) and to allow rows of different
/// lengths (`flexible(true)`), and collects what its `records()` iterator
/// yields: the fields of each row, or `None` for a row on which the reader
/// reports an error. The contract only names that result.
#[verifier::external_body]
fn read_csv_rows(data: &[u8]) -> (rows: Vec<Option<Vec<String>>>)
    ensures
        rows.deep_view() == csv_rows(data@),
{
    let mut reader = csv::ReaderBuilder::new().has_headers(false).flexible(true).from_reader(data);
    reader.records().map(|row| row.ok().map(|r| r.iter().map(String::from).collect())).collect()
}

impl KnowledgeBase {
    /// Teaches every line of the form `key=value`, first to last. Lines
    /// without `=` and lines with an empty key are passed over. Returns how
    /// many pairs were taught.
    pub fn teach_from_lines(&mut self, lines: &Vec<String>) -> (count: usize)
        ensures
            well_formed(final(self)@.entries),
            final(self)@.identity == old(self)@.identity,
            final(self)@.entries == teach_all(
                old(self)@.entries,
                facts_of_lines(lines.deep_view()),
            ),
            count == accepted(facts_of_lines(lines.deep_view())),
    {
        let pairs = parse_fact_lines(lines);
        self.bulk_insert(&pairs)
    }

    /// Teaches the first two fields of every row as key and value, first row
    /// to last. Rows that could not be read, rows with fewer than two fields
    /// and rows with an empty key are passed over. Returns how many pairs
    /// were taught.
    pub fn import_rows(&mut self, rows: &Vec<Option<Vec<String>>>) -> (count: usize)
        ensures
            well_formed(final(self)@.entries),
            final(self)@.identity == old(self)@.identity,
            final(self)@.entries == teach_all(
                old(self)@.entries,
                facts_of_rows(rows.deep_view()),
            ),
            count == accepted(facts_of_rows(rows.deep_view())),
    {
        let pairs = pairs_of_rows(rows);
        self.bulk_insert(&pairs)
    }

    /// Teaches the rows of CSV data: see [`KnowledgeBase::import_rows`].
    pub fn import_csv(&mut self, data: &[u8]) -> (count: usize)
        ensures
            well_formed(final(self)@.entries),
            final(self)@.identity == old(self)@.identity,
            final(self)@.entries == teach_all(
                old(self)@.entries,
                facts_of_rows(csv_rows(data@)),
            ),
            count == accepted(facts_of_rows(csv_rows(data@))),
    {
        let rows = read_csv_rows(data);
        self.import_rows(&rows)
    }
}

} // verus!
